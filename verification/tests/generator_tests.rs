use valt::error::CoreError;
use valt::generator::{generate, GeneratorConfig};

#[test]
fn test_length_respected() {
    let cfg = GeneratorConfig { length: 32, ..Default::default() };
    let pwd = generate(&cfg).unwrap();
    assert_eq!(pwd.len(), 32);
}

#[test]
fn test_only_digits() {
    let cfg = GeneratorConfig {
        length: 100,
        uppercase: false,
        lowercase: false,
        digits: true,
        symbols: false,
    };
    let pwd = generate(&cfg).unwrap();
    assert!(pwd.chars().all(|c| c.is_ascii_digit()));
}

#[test]
fn test_only_uppercase() {
    let cfg = GeneratorConfig {
        length: 100,
        uppercase: true,
        lowercase: false,
        digits: false,
        symbols: false,
    };
    let pwd = generate(&cfg).unwrap();
    assert!(pwd.chars().all(|c| c.is_ascii_uppercase()));
}

#[test]
fn test_empty_charset_error() {
    let cfg = GeneratorConfig {
        length: 10,
        uppercase: false,
        lowercase: false,
        digits: false,
        symbols: false,
    };
    assert!(matches!(generate(&cfg), Err(CoreError::EmptyCharset)));
}

#[test]
fn test_zero_length_error() {
    let cfg = GeneratorConfig { length: 0, ..Default::default() };
    assert!(matches!(generate(&cfg), Err(CoreError::InvalidLength)));
}

#[test]
fn test_two_calls_differ() {
    let cfg = GeneratorConfig::default();
    let a = generate(&cfg).unwrap();
    let b = generate(&cfg).unwrap();
    // Statistically guaranteed to differ with 20 chars from a 88-char charset
    assert_ne!(a, b);
}

#[test]
fn test_symbols_only_alphabet() {
    let cfg = GeneratorConfig {
        length: 200,
        uppercase: false,
        lowercase: false,
        digits: false,
        symbols: true,
    };
    let pwd = generate(&cfg).unwrap();
    assert_eq!(pwd.chars().count(), 200);
    assert!(pwd.chars().all(|c| "!@#$%^&*()-_=+[]{}|;:,.<>?".contains(c)));
}

#[test]
fn test_default_config_values() {
    let cfg = GeneratorConfig::default();
    assert_eq!(cfg.length, 20);
    assert!(cfg.uppercase && cfg.lowercase && cfg.digits && cfg.symbols);
}
