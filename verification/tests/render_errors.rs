use glutin::error::{Error, ErrorKind};
use ori_core::render::GlowError;

#[test]
fn errors_in_words() {
    assert_eq!(GlowError::ConfigNotFound.message(), "No compatible config found");
    assert_eq!(GlowError::Gl("no device".to_string()).message(), "no device");
    assert_eq!(GlowError::Gl(String::new()).message(), "");
}

#[test]
fn the_platform_speaks_for_its_own_errors() {
    let not_found = Error::from(ErrorKind::NotFound);
    let words = not_found.to_string();
    assert!(!words.is_empty());
    let e = GlowError::from(not_found);
    assert!(matches!(e, GlowError::Glutin(_)));
    assert_eq!(e.message(), words);
    let other = GlowError::from(Error::from(ErrorKind::OutOfMemory));
    assert_ne!(other.message(), words);
    assert_eq!(other.message(), Error::from(ErrorKind::OutOfMemory).to_string());
}

#[test]
fn given_words_stand_for_the_platforms() {
    let e = GlowError::from(Error::from(ErrorKind::BadContext));
    assert_eq!(e.message_with("lost".to_string()), "lost");
    assert_eq!(
        GlowError::ConfigNotFound.message_with("lost".to_string()),
        "No compatible config found"
    );
    assert_eq!(GlowError::Gl("x".to_string()).message_with("lost".to_string()), "x");
}
