use bundler_core::error::BundlerError;
use bundler_core::fs::FsAnswer;
use bundler_core::pattern::rejection;
use bundler_core::resolver::ResolverError;

#[test]
fn resolver_error_becomes_a_bundler_error() {
    let inner = ResolverError::ModuleNotFound { request: "./x".to_string(), context: "/p/a.js".to_string() };
    match BundlerError::from(inner) {
        BundlerError::ResolverError(ResolverError::ModuleNotFound { request, context }) => {
            assert_eq!(request, "./x");
            assert_eq!(context, "/p/a.js");
        }
        other => panic!("expected a resolver error, got {:?}", other),
    }
    match BundlerError::from(ResolverError::Io("denied".to_string())) {
        BundlerError::ResolverError(ResolverError::Io(message)) => assert_eq!(message, "denied"),
        other => panic!("expected a resolver error, got {:?}", other),
    }
}

#[test]
fn rejected_pattern_is_named() {
    assert_eq!(rejection("a(b"), "pattern rejected: a(b");
}

#[test]
fn answers_are_read_by_their_kind() {
    assert!(FsAnswer::Flag(true).is_yes());
    assert!(!FsAnswer::Flag(false).is_yes());
    assert!(!FsAnswer::Path("/yes".to_string()).is_yes());
    assert_eq!(FsAnswer::Path("/p".to_string()).into_path(), Ok("/p".to_string()));
    assert_eq!(FsAnswer::Failed("gone".to_string()).into_path(), Err("gone".to_string()));
    assert_eq!(FsAnswer::Text("t".to_string()).into_path(), Err("unexpected answer".to_string()));
    assert_eq!(FsAnswer::Text("t".to_string()).into_text(), Ok("t".to_string()));
    assert_eq!(FsAnswer::Failed("gone".to_string()).into_text(), Err("gone".to_string()));
    assert_eq!(FsAnswer::Flag(true).into_text(), Err("unexpected answer".to_string()));
}
