//! Random password generation from a configurable character-class mask.

use vstd::prelude::*;
use crate::error::CoreError;

verus! {

/// Options for the password generator.
#[derive(Debug, Clone)]
pub struct GeneratorConfig {
    pub length: usize,
    pub uppercase: bool,
    pub lowercase: bool,
    pub digits: bool,
    pub symbols: bool,
}

impl Default for GeneratorConfig {
    /// Twenty characters drawn from all four classes.
    fn default() -> (r: Self)
        ensures
            r.length == 20,
            r.uppercase && r.lowercase && r.digits && r.symbols,
    {
        GeneratorConfig { length: 20, uppercase: true, lowercase: true, digits: true, symbols: true }
    }
}

/// The upper-case class alphabet.
pub open spec fn upper_chars() -> Seq<char> {
    "ABCDEFGHIJKLMNOPQRSTUVWXYZ"@
}

/// The lower-case class alphabet.
pub open spec fn lower_chars() -> Seq<char> {
    "abcdefghijklmnopqrstuvwxyz"@
}

/// The digit class alphabet.
pub open spec fn digit_chars() -> Seq<char> {
    "0123456789"@
}

/// The symbol class alphabet.
pub open spec fn symbol_chars() -> Seq<char> {
    "!@#$%^&*()-_=+[]{}|;:,.<>?"@
}

/// The effective charset of a configuration: the enabled class alphabets,
/// concatenated in the fixed order upper, lower, digits, symbols.
pub open spec fn charset(cfg: GeneratorConfig) -> Seq<char> {
    (if cfg.uppercase {
        upper_chars()
    } else {
        Seq::empty()
    }) + (if cfg.lowercase {
        lower_chars()
    } else {
        Seq::empty()
    }) + (if cfg.digits {
        digit_chars()
    } else {
        Seq::empty()
    }) + (if cfg.symbols {
        symbol_chars()
    } else {
        Seq::empty()
    })
}

/// Relies on `rand::random_range` over `0..n`: returns a uniformly drawn value
/// of the non-empty range, from a cryptographically seeded generator.
#[verifier::external_body]
fn random_below(n: usize) -> (r: usize)
    requires
        n >= 1,
    ensures
        r < n,
{
    rand::random_range(0..n)
}

/// Append every character of `s` to `out`.
fn append_chars(out: &mut Vec<char>, s: &str)
    ensures
        final(out)@ == old(out)@ + s@,
{
    let n = s.unicode_len();
    let mut i: usize = 0;
    while i < n
        invariant
            n == s@.len(),
            i <= n,
            out@ == old(out)@ + s@.take(i as int),
        decreases n - i,
    {
        out.push(s.get_char(i));
        i = i + 1;
        proof {
            assert(out@ =~= old(out)@ + s@.take(i as int));
        }
    }
    proof {
        assert(out@ =~= old(out)@ + s@);
    }
}

/// Generate a random password from the given configuration.
///
/// Fails with `InvalidLength` when the length is zero and with `EmptyCharset`
/// when no class is enabled; otherwise returns exactly `cfg.length` characters,
/// each drawn from the effective charset.
pub fn generate(cfg: &GeneratorConfig) -> (r: Result<String, CoreError>)
    ensures
        cfg.length == 0 ==> (r matches Err(e) && e is InvalidLength),
        cfg.length > 0 && !(cfg.uppercase || cfg.lowercase || cfg.digits || cfg.symbols) ==> (
        r matches Err(e) && e is EmptyCharset),
        cfg.length > 0 && (cfg.uppercase || cfg.lowercase || cfg.digits || cfg.symbols) ==> (
        r matches Ok(p) && p@.len() == cfg.length && (forall|i: int|
            0 <= i < p@.len() ==> charset(*cfg).contains(#[trigger] p@[i]))),
{
    if cfg.length == 0 {
        return Err(CoreError::InvalidLength);
    }
    let mut chars: Vec<char> = Vec::new();
    if cfg.uppercase {
        append_chars(&mut chars, "ABCDEFGHIJKLMNOPQRSTUVWXYZ");
    }
    if cfg.lowercase {
        append_chars(&mut chars, "abcdefghijklmnopqrstuvwxyz");
    }
    if cfg.digits {
        append_chars(&mut chars, "0123456789");
    }
    if cfg.symbols {
        append_chars(&mut chars, "!@#$%^&*()-_=+[]{}|;:,.<>?");
    }
    proof {
        assert(chars@ =~= charset(*cfg));
    }
    if chars.len() == 0 {
        proof {
            reveal_strlit("ABCDEFGHIJKLMNOPQRSTUVWXYZ");
            reveal_strlit("abcdefghijklmnopqrstuvwxyz");
            reveal_strlit("0123456789");
            reveal_strlit("!@#$%^&*()-_=+[]{}|;:,.<>?");
        }
        return Err(CoreError::EmptyCharset);
    }
    let mut out = String::new();
    let mut k: usize = 0;
    while k < cfg.length
        invariant
            chars@ == charset(*cfg),
            chars@.len() >= 1,
            k <= cfg.length,
            out@.len() == k,
            forall|i: int| 0 <= i < out@.len() ==> charset(*cfg).contains(#[trigger] out@[i]),
        decreases cfg.length - k,
    {
        let idx = random_below(chars.len());
        out.push(chars[idx]);
        k = k + 1;
    }
    Ok(out)
}

} // verus!
