//! The plaintext payload format of the vault document.
//!
//! The encrypted document store persists an opaque text blob; this module
//! defines that blob. Every number is written as fixed-width hexadecimal,
//! every string as an eight-digit character count followed by the characters
//! themselves, so that decoding needs no escaping and is provably the inverse
//! of encoding (`lemma_doc_round_trip`).

use vstd::prelude::*;
use crate::secret::{Secret, SecretView, LEN_LIMIT};
use crate::vault_data::{VaultData, DocView};

verus! {

/// Sixteen to the power `w`.
pub open spec fn pow16(w: nat) -> nat
    decreases w,
{
    if w == 0 {
        1
    } else {
        16 * pow16((w - 1) as nat)
    }
}

/// The hexadecimal digit character for a value below sixteen.
pub open spec fn hexdigit(n: nat) -> char {
    if n == 0 {
        '0'
    } else if n == 1 {
        '1'
    } else if n == 2 {
        '2'
    } else if n == 3 {
        '3'
    } else if n == 4 {
        '4'
    } else if n == 5 {
        '5'
    } else if n == 6 {
        '6'
    } else if n == 7 {
        '7'
    } else if n == 8 {
        '8'
    } else if n == 9 {
        '9'
    } else if n == 10 {
        'a'
    } else if n == 11 {
        'b'
    } else if n == 12 {
        'c'
    } else if n == 13 {
        'd'
    } else if n == 14 {
        'e'
    } else {
        'f'
    }
}

/// The value of a hexadecimal digit character, or nothing.
pub open spec fn hexval(c: char) -> Option<nat> {
    if c == '0' {
        Some(0 as nat)
    } else if c == '1' {
        Some(1 as nat)
    } else if c == '2' {
        Some(2 as nat)
    } else if c == '3' {
        Some(3 as nat)
    } else if c == '4' {
        Some(4 as nat)
    } else if c == '5' {
        Some(5 as nat)
    } else if c == '6' {
        Some(6 as nat)
    } else if c == '7' {
        Some(7 as nat)
    } else if c == '8' {
        Some(8 as nat)
    } else if c == '9' {
        Some(9 as nat)
    } else if c == 'a' {
        Some(10 as nat)
    } else if c == 'b' {
        Some(11 as nat)
    } else if c == 'c' {
        Some(12 as nat)
    } else if c == 'd' {
        Some(13 as nat)
    } else if c == 'e' {
        Some(14 as nat)
    } else if c == 'f' {
        Some(15 as nat)
    } else {
        None
    }
}

/// `n` written as exactly `w` hexadecimal digits, most significant first.
pub open spec fn hex_enc(n: nat, w: nat) -> Seq<char>
    decreases w,
{
    if w == 0 {
        Seq::empty()
    } else {
        hex_enc(n / 16, (w - 1) as nat) + seq![hexdigit(n % 16)]
    }
}

/// The value of a sequence of hexadecimal digits, or nothing if some
/// character is not a digit.
pub open spec fn hex_dec(s: Seq<char>) -> Option<nat>
    decreases s.len(),
{
    if s.len() == 0 {
        Some(0 as nat)
    } else {
        match (hex_dec(s.drop_last()), hexval(s.last())) {
            (Some(h), Some(d)) => Some(16 * h + d),
            _ => None,
        }
    }
}

pub proof fn lemma_hex_enc_len(n: nat, w: nat)
    ensures
        hex_enc(n, w).len() == w,
    decreases w,
{
    if w > 0 {
        lemma_hex_enc_len(n / 16, (w - 1) as nat);
    }
}

pub proof fn lemma_pow16_mono(i: nat, j: nat)
    requires
        i <= j,
    ensures
        pow16(i) <= pow16(j),
    decreases j,
{
    if i < j {
        lemma_pow16_mono(i, (j - 1) as nat);
    }
}

/// Every digit of a valid encoding decodes back, so the whole number does.
pub proof fn lemma_hex_roundtrip(n: nat, w: nat)
    requires
        n < pow16(w),
    ensures
        hex_dec(hex_enc(n, w)) == Some(n),
    decreases w,
{
    if w == 0 {
        assert(hex_enc(n, w) =~= Seq::<char>::empty());
    } else {
        lemma_hex_enc_len(n / 16, (w - 1) as nat);
        assert(16 * (n / 16) <= n) by {
            assert(n == 16 * (n / 16) + n % 16);
        }
        assert(n / 16 < pow16((w - 1) as nat));
        lemma_hex_roundtrip(n / 16, (w - 1) as nat);
        let e = hex_enc(n, w);
        assert(e.drop_last() =~= hex_enc(n / 16, (w - 1) as nat));
        assert(e.last() == hexdigit(n % 16));
        assert(hexval(hexdigit(n % 16)) == Some(n % 16));
        assert(16 * (n / 16) + n % 16 == n);
    }
}

/// If a number decodes from a digit string, it is below sixteen to the
/// string's length.
pub proof fn lemma_hex_dec_bound(s: Seq<char>)
    ensures
        hex_dec(s) matches Some(m) ==> m < pow16(s.len()),
    decreases s.len(),
{
    if s.len() > 0 {
        lemma_hex_dec_bound(s.drop_last());
    }
}

/// A string with a non-digit character decodes to nothing.
pub proof fn lemma_hex_dec_bad(s: Seq<char>, k: int)
    requires
        0 <= k < s.len(),
        hexval(s[k]) is None,
    ensures
        hex_dec(s) is None,
    decreases s.len(),
{
    if k < s.len() - 1 {
        lemma_hex_dec_bad(s.drop_last(), k);
    }
}

// ---------------------------------------------------------------------------
// Spec-level encoders.
// ---------------------------------------------------------------------------

/// A string field: its character count as eight digits, then its characters.
pub open spec fn enc_str(t: Seq<char>) -> Seq<char> {
    hex_enc(t.len(), 8) + t
}

/// An optional string field: a presence flag, then the string when present.
pub open spec fn enc_opt(o: Option<Seq<char>>) -> Seq<char> {
    match o {
        None => seq!['0'],
        Some(t) => seq!['1'] + enc_str(t),
    }
}

/// A sequence of string fields, one after the other.
pub open spec fn enc_strs(ts: Seq<Seq<char>>) -> Seq<char>
    decreases ts.len(),
{
    if ts.len() == 0 {
        Seq::empty()
    } else {
        enc_str(ts[0]) + enc_strs(ts.drop_first())
    }
}

/// A signed timestamp, shifted into the unsigned range and written as
/// sixteen digits.
pub open spec fn i64_off(v: i64) -> nat {
    (v + 0x8000_0000_0000_0000) as nat
}

/// The inverse shift of `i64_off`.
pub open spec fn i64_unoff(n: nat) -> i64 {
    (n - 0x8000_0000_0000_0000) as i64
}

pub open spec fn enc_i64(v: i64) -> Seq<char> {
    hex_enc(i64_off(v), 16)
}

/// One secret record: identifier, name, username, password, url, notes,
/// tag count and tags, then the two timestamps.
pub open spec fn enc_secret(s: SecretView) -> Seq<char> {
    hex_enc(s.id as nat, 32) + enc_str(s.name) + enc_opt(s.username) + enc_str(s.password)
        + enc_opt(s.url) + enc_opt(s.notes) + hex_enc(s.tags.len(), 8) + enc_strs(s.tags) + enc_i64(
        s.created_at,
    ) + enc_i64(s.updated_at)
}

/// A sequence of records, one after the other.
pub open spec fn enc_secrets(ss: Seq<SecretView>) -> Seq<char>
    decreases ss.len(),
{
    if ss.len() == 0 {
        Seq::empty()
    } else {
        enc_secret(ss[0]) + enc_secrets(ss.drop_first())
    }
}

/// The whole document: version, record count, records.
pub open spec fn enc_doc(d: DocView) -> Seq<char> {
    hex_enc(d.version as nat, 2) + hex_enc(d.secrets.len(), 8) + enc_secrets(d.secrets)
}

// ---------------------------------------------------------------------------
// Spec-level decoders. Each consumes from a position and yields the value
// and the next position, or nothing.
// ---------------------------------------------------------------------------

pub open spec fn dec_u(s: Seq<char>, pos: int, w: nat) -> Option<(nat, int)> {
    if 0 <= pos && pos + w <= s.len() {
        match hex_dec(s.subrange(pos, pos + w)) {
            Some(n) => Some((n, pos + w)),
            None => None,
        }
    } else {
        None
    }
}

pub open spec fn dec_str(s: Seq<char>, pos: int) -> Option<(Seq<char>, int)> {
    match dec_u(s, pos, 8) {
        Some((n, p)) => if p + n <= s.len() {
            Some((s.subrange(p, p + n), p + n))
        } else {
            None
        },
        None => None,
    }
}

pub open spec fn dec_opt(s: Seq<char>, pos: int) -> Option<(Option<Seq<char>>, int)> {
    if 0 <= pos < s.len() {
        if s[pos] == '0' {
            Some((None, pos + 1))
        } else if s[pos] == '1' {
            match dec_str(s, pos + 1) {
                Some((t, p)) => Some((Some(t), p)),
                None => None,
            }
        } else {
            None
        }
    } else {
        None
    }
}

pub open spec fn dec_strs(s: Seq<char>, pos: int, k: nat) -> Option<(Seq<Seq<char>>, int)>
    decreases k,
{
    if k == 0 {
        Some((Seq::empty(), pos))
    } else {
        match dec_str(s, pos) {
            Some((t, p)) => match dec_strs(s, p, (k - 1) as nat) {
                Some((ts, q)) => Some((seq![t] + ts, q)),
                None => None,
            },
            None => None,
        }
    }
}

pub open spec fn dec_secret(s: Seq<char>, pos: int) -> Option<(SecretView, int)> {
    match dec_u(s, pos, 32) {
        Some((id, p1)) => match dec_str(s, p1) {
            Some((name, p2)) => match dec_opt(s, p2) {
                Some((username, p3)) => match dec_str(s, p3) {
                    Some((password, p4)) => match dec_opt(s, p4) {
                        Some((url, p5)) => match dec_opt(s, p5) {
                            Some((notes, p6)) => match dec_u(s, p6, 8) {
                                Some((ntags, p7)) => match dec_strs(s, p7, ntags) {
                                    Some((tags, p8)) => match dec_u(s, p8, 16) {
                                        Some((ca, p9)) => match dec_u(s, p9, 16) {
                                            Some((ua, p10)) => Some(
                                                (
                                                    SecretView {
                                                        id: id as u128,
                                                        name: name,
                                                        username: username,
                                                        password: password,
                                                        url: url,
                                                        notes: notes,
                                                        tags: tags,
                                                        created_at: i64_unoff(ca),
                                                        updated_at: i64_unoff(ua),
                                                    },
                                                    p10,
                                                ),
                                            ),
                                            None => None,
                                        },
                                        None => None,
                                    },
                                    None => None,
                                },
                                None => None,
                            },
                            None => None,
                        },
                        None => None,
                    },
                    None => None,
                },
                None => None,
            },
            None => None,
        },
        None => None,
    }
}

pub open spec fn dec_secrets(s: Seq<char>, pos: int, k: nat) -> Option<(Seq<SecretView>, int)>
    decreases k,
{
    if k == 0 {
        Some((Seq::empty(), pos))
    } else {
        match dec_secret(s, pos) {
            Some((sv, p)) => match dec_secrets(s, p, (k - 1) as nat) {
                Some((ss, q)) => Some((seq![sv] + ss, q)),
                None => None,
            },
            None => None,
        }
    }
}

/// The whole-document decoder: succeeds only when the text is consumed
/// exactly.
pub open spec fn dec_doc(s: Seq<char>) -> Option<DocView> {
    match dec_u(s, 0, 2) {
        Some((v, p1)) => match dec_u(s, p1, 8) {
            Some((k, p2)) => match dec_secrets(s, p2, k) {
                Some((ss, p3)) => if p3 == s.len() {
                    Some(DocView { version: v as u8, secrets: ss })
                } else {
                    None
                },
                None => None,
            },
            None => None,
        },
        None => None,
    }
}

// ---------------------------------------------------------------------------
// Bounds under which a value survives the fixed-width length fields.
// ---------------------------------------------------------------------------

pub open spec fn opt_bounded(o: Option<Seq<char>>) -> bool {
    match o {
        Some(t) => t.len() < LEN_LIMIT,
        None => true,
    }
}

pub open spec fn secret_bounded(s: SecretView) -> bool {
    &&& s.name.len() < LEN_LIMIT
    &&& s.password.len() < LEN_LIMIT
    &&& opt_bounded(s.username)
    &&& opt_bounded(s.url)
    &&& opt_bounded(s.notes)
    &&& s.tags.len() < LEN_LIMIT
    &&& (forall|i: int| 0 <= i < s.tags.len() ==> #[trigger] s.tags[i].len() < LEN_LIMIT)
}

pub open spec fn doc_bounded(d: DocView) -> bool {
    &&& d.secrets.len() < LEN_LIMIT
    &&& (forall|i: int| 0 <= i < d.secrets.len() ==> secret_bounded(#[trigger] d.secrets[i]))
}

pub proof fn lemma_len_limit_is_pow16_8()
    ensures
        LEN_LIMIT as nat == pow16(8),
        pow16(2) == 256,
        pow16(16) == 0x1_0000_0000_0000_0000,
        pow16(32) == 0x1_0000_0000_0000_0000_0000_0000_0000_0000,
{
    reveal_with_fuel(pow16, 33);
    assert(LEN_LIMIT as nat == pow16(8) && pow16(2) == 256 && pow16(16) == 0x1_0000_0000_0000_0000
        && pow16(32) == 0x1_0000_0000_0000_0000_0000_0000_0000_0000);
}

// ---------------------------------------------------------------------------
// Decoding inverts encoding.
// ---------------------------------------------------------------------------

pub proof fn lemma_dec_u(s: Seq<char>, pos: int, n: nat, w: nat)
    requires
        0 <= pos,
        pos + w <= s.len(),
        n < pow16(w),
        s.subrange(pos, pos + w) == hex_enc(n, w),
    ensures
        dec_u(s, pos, w) == Some((n, pos + w)),
{
    lemma_hex_roundtrip(n, w);
}

/// A sub-segment of a segment of `s` is the corresponding direct segment.
proof fn lemma_slice_within(s: Seq<char>, pos: int, len: int, a: int, b: int)
    requires
        0 <= pos,
        pos + len <= s.len(),
        0 <= a <= b <= len,
    ensures
        s.subrange(pos + a, pos + b) == s.subrange(pos, pos + len).subrange(a, b),
{
    assert(s.subrange(pos + a, pos + b) =~= s.subrange(pos, pos + len).subrange(a, b));
}

pub proof fn lemma_dec_str(s: Seq<char>, pos: int, t: Seq<char>)
    requires
        0 <= pos,
        pos + enc_str(t).len() <= s.len(),
        t.len() < LEN_LIMIT,
        s.subrange(pos, pos + enc_str(t).len()) == enc_str(t),
    ensures
        enc_str(t).len() == 8 + t.len(),
        dec_str(s, pos) == Some((t, pos + 8 + t.len())),
{
    lemma_hex_enc_len(t.len(), 8);
    lemma_len_limit_is_pow16_8();
    let el = enc_str(t).len() as int;
    lemma_slice_within(s, pos, el, 0, 8);
    assert(enc_str(t).subrange(0, 8) =~= hex_enc(t.len(), 8));
    assert(s.subrange(pos, pos + 8) == hex_enc(t.len(), 8));
    lemma_dec_u(s, pos, t.len(), 8);
    lemma_slice_within(s, pos, el, 8, el);
    assert(enc_str(t).subrange(8, el) =~= t);
    assert(s.subrange(pos + 8, pos + 8 + t.len()) == t);
}

pub proof fn lemma_dec_opt(s: Seq<char>, pos: int, o: Option<Seq<char>>)
    requires
        0 <= pos,
        pos + enc_opt(o).len() <= s.len(),
        opt_bounded(o),
        s.subrange(pos, pos + enc_opt(o).len()) == enc_opt(o),
    ensures
        dec_opt(s, pos) == Some((o, pos + enc_opt(o).len())),
{
    match o {
        None => {
            assert(s.subrange(pos, pos + 1)[0] == s[pos]);
            assert(enc_opt(o)[0] == '0');
        },
        Some(t) => {
            lemma_hex_enc_len(t.len(), 8);
            let el = enc_opt(o).len() as int;
            assert(s.subrange(pos, pos + el)[0] == s[pos]);
            assert(enc_opt(o)[0] == '1');
            lemma_slice_within(s, pos, el, 1, el);
            assert(enc_opt(o).subrange(1, el) =~= enc_str(t));
            assert(s.subrange(pos + 1, pos + 1 + enc_str(t).len()) == enc_str(t));
            lemma_dec_str(s, pos + 1, t);
        },
    }
}

pub proof fn lemma_dec_strs(s: Seq<char>, pos: int, ts: Seq<Seq<char>>)
    requires
        0 <= pos,
        pos + enc_strs(ts).len() <= s.len(),
        forall|i: int| 0 <= i < ts.len() ==> #[trigger] ts[i].len() < LEN_LIMIT,
        s.subrange(pos, pos + enc_strs(ts).len()) == enc_strs(ts),
    ensures
        dec_strs(s, pos, ts.len()) == Some((ts, pos + enc_strs(ts).len())),
    decreases ts.len(),
{
    if ts.len() == 0 {
        assert(Seq::<Seq<char>>::empty() =~~= ts);
    } else {
        let t0 = ts[0];
        let rest = ts.drop_first();
        lemma_hex_enc_len(t0.len(), 8);
        assert(enc_strs(ts) == enc_str(t0) + enc_strs(rest));
        let l0 = enc_str(t0).len() as int;
        let el = enc_strs(ts).len() as int;
        lemma_slice_within(s, pos, el, 0, l0);
        assert(enc_strs(ts).subrange(0, l0) =~= enc_str(t0));
        assert(s.subrange(pos, pos + l0) == enc_str(t0));
        lemma_dec_str(s, pos, t0);
        let p = pos + l0;
        lemma_slice_within(s, pos, el, l0, el);
        assert(enc_strs(ts).subrange(l0, el) =~= enc_strs(rest));
        assert(s.subrange(p, p + enc_strs(rest).len()) == enc_strs(rest));
        assert forall|i: int| 0 <= i < rest.len() implies #[trigger] rest[i].len() < LEN_LIMIT by {
            assert(rest[i] == ts[i + 1]);
        }
        lemma_dec_strs(s, p, rest);
        assert(seq![t0] + rest =~~= ts);
    }
}

pub proof fn lemma_i64_roundtrip(v: i64)
    ensures
        i64_off(v) < pow16(16),
        i64_unoff(i64_off(v)) == v,
{
    lemma_len_limit_is_pow16_8();
}

#[verifier::rlimit(60)]
pub proof fn lemma_dec_secret(s: Seq<char>, pos: int, sv: SecretView)
    requires
        0 <= pos,
        pos + enc_secret(sv).len() <= s.len(),
        secret_bounded(sv),
        s.subrange(pos, pos + enc_secret(sv).len()) == enc_secret(sv),
    ensures
        dec_secret(s, pos) == Some((sv, pos + enc_secret(sv).len())),
{
    lemma_len_limit_is_pow16_8();
    let e = enc_secret(sv);
    let el = e.len() as int;
    let e_id = hex_enc(sv.id as nat, 32);
    let e_name = enc_str(sv.name);
    let e_user = enc_opt(sv.username);
    let e_pw = enc_str(sv.password);
    let e_url = enc_opt(sv.url);
    let e_notes = enc_opt(sv.notes);
    let e_ntags = hex_enc(sv.tags.len(), 8);
    let e_tags = enc_strs(sv.tags);
    let e_ca = enc_i64(sv.created_at);
    let e_ua = enc_i64(sv.updated_at);
    lemma_hex_enc_len(sv.id as nat, 32);
    lemma_hex_enc_len(sv.tags.len(), 8);
    lemma_i64_roundtrip(sv.created_at);
    lemma_i64_roundtrip(sv.updated_at);
    lemma_hex_enc_len(i64_off(sv.created_at), 16);
    lemma_hex_enc_len(i64_off(sv.updated_at), 16);
    let q1: int = 32;
    let q2 = q1 + e_name.len();
    let q3 = q2 + e_user.len();
    let q4 = q3 + e_pw.len();
    let q5 = q4 + e_url.len();
    let q6 = q5 + e_notes.len();
    let q7 = q6 + 8;
    let q8 = q7 + e_tags.len();
    let q9 = q8 + 16;
    let q10 = q9 + 16;
    assert(e == e_id + e_name + e_user + e_pw + e_url + e_notes + e_ntags + e_tags + e_ca + e_ua);
    assert(el == q10);
    lemma_slice_within(s, pos, el, 0, q1);
    assert(e.subrange(0, q1) =~= e_id);
    assert((sv.id as nat) < pow16(32));
    assert(s.subrange(pos, pos + 32) == e_id);
    lemma_dec_u(s, pos, sv.id as nat, 32);
    lemma_slice_within(s, pos, el, q1, q2);
    assert(e.subrange(q1, q2) =~= e_name);
    assert(s.subrange(pos + q1, pos + q1 + e_name.len()) == e_name);
    lemma_dec_str(s, pos + q1, sv.name);
    lemma_slice_within(s, pos, el, q2, q3);
    assert(e.subrange(q2, q3) =~= e_user);
    assert(s.subrange(pos + q2, pos + q2 + e_user.len()) == e_user);
    lemma_dec_opt(s, pos + q2, sv.username);
    lemma_slice_within(s, pos, el, q3, q4);
    assert(e.subrange(q3, q4) =~= e_pw);
    assert(s.subrange(pos + q3, pos + q3 + e_pw.len()) == e_pw);
    lemma_dec_str(s, pos + q3, sv.password);
    lemma_slice_within(s, pos, el, q4, q5);
    assert(e.subrange(q4, q5) =~= e_url);
    assert(s.subrange(pos + q4, pos + q4 + e_url.len()) == e_url);
    lemma_dec_opt(s, pos + q4, sv.url);
    lemma_slice_within(s, pos, el, q5, q6);
    assert(e.subrange(q5, q6) =~= e_notes);
    assert(s.subrange(pos + q5, pos + q5 + e_notes.len()) == e_notes);
    lemma_dec_opt(s, pos + q5, sv.notes);
    lemma_slice_within(s, pos, el, q6, q7);
    assert(e.subrange(q6, q7) =~= e_ntags);
    assert(s.subrange(pos + q6, pos + q6 + 8) == e_ntags);
    lemma_dec_u(s, pos + q6, sv.tags.len(), 8);
    lemma_slice_within(s, pos, el, q7, q8);
    assert(e.subrange(q7, q8) =~= e_tags);
    assert(s.subrange(pos + q7, pos + q7 + e_tags.len()) == e_tags);
    lemma_dec_strs(s, pos + q7, sv.tags);
    lemma_slice_within(s, pos, el, q8, q9);
    assert(e.subrange(q8, q9) =~= e_ca);
    assert(s.subrange(pos + q8, pos + q8 + 16) == e_ca);
    lemma_dec_u(s, pos + q8, i64_off(sv.created_at), 16);
    lemma_slice_within(s, pos, el, q9, q10);
    assert(e.subrange(q9, q10) =~= e_ua);
    assert(s.subrange(pos + q9, pos + q9 + 16) == e_ua);
    lemma_dec_u(s, pos + q9, i64_off(sv.updated_at), 16);
    assert((sv.id as nat) as u128 == sv.id);
    let r = dec_secret(s, pos);
    assert(r matches Some(p) && p.0 =~~= sv && p.1 == pos + el);
    assert(r == Some((sv, pos + el)));
}

#[verifier::rlimit(100)]
#[verifier::spinoff_prover]
pub proof fn lemma_dec_secrets(s: Seq<char>, pos: int, ss: Seq<SecretView>)
    requires
        0 <= pos,
        pos + enc_secrets(ss).len() <= s.len(),
        forall|i: int| 0 <= i < ss.len() ==> secret_bounded(#[trigger] ss[i]),
        s.subrange(pos, pos + enc_secrets(ss).len()) == enc_secrets(ss),
    ensures
        dec_secrets(s, pos, ss.len()) == Some((ss, pos + enc_secrets(ss).len())),
    decreases ss.len(),
{
    if ss.len() == 0 {
        assert(Seq::<SecretView>::empty() =~~= ss);
    } else {
        let s0 = ss[0];
        let rest = ss.drop_first();
        assert(enc_secrets(ss) == enc_secret(s0) + enc_secrets(rest));
        let l0 = enc_secret(s0).len() as int;
        let el = enc_secrets(ss).len() as int;
        lemma_slice_within(s, pos, el, 0, l0);
        assert(enc_secrets(ss).subrange(0, l0) =~= enc_secret(s0));
        assert(s.subrange(pos, pos + l0) == enc_secret(s0));
        lemma_dec_secret(s, pos, s0);
        let p = pos + l0;
        lemma_slice_within(s, pos, el, l0, el);
        assert(enc_secrets(ss).subrange(l0, el) =~= enc_secrets(rest));
        assert(s.subrange(p, p + enc_secrets(rest).len()) == enc_secrets(rest));
        assert forall|i: int| 0 <= i < rest.len() implies secret_bounded(#[trigger] rest[i]) by {
            assert(rest[i] == ss[i + 1]);
        }
        lemma_dec_secrets(s, p, rest);
        assert(seq![s0] + rest =~~= ss);
    }
}

/// Decoding the encoding of any bounded document yields that document.
pub proof fn lemma_doc_round_trip(d: DocView)
    ensures
        doc_bounded(d) ==> dec_doc(enc_doc(d)) == Some(d),
{
    if doc_bounded(d) {
        lemma_len_limit_is_pow16_8();
        let s = enc_doc(d);
        lemma_hex_enc_len(d.version as nat, 2);
        lemma_hex_enc_len(d.secrets.len(), 8);
        let p1: int = 2;
        let p2: int = 10;
        let el = s.len() as int;
        lemma_slice_within(s, 0, el, 0, p1);
        assert(enc_doc(d).subrange(0, p1) =~= hex_enc(d.version as nat, 2));
        assert(s.subrange(0, el) =~= s);
        assert(s.subrange(0, p1) == hex_enc(d.version as nat, 2));
        lemma_dec_u(s, 0, d.version as nat, 2);
        lemma_slice_within(s, 0, el, p1, p2);
        assert(enc_doc(d).subrange(p1, p2) =~= hex_enc(d.secrets.len(), 8));
        assert(s.subrange(p1, p2) == hex_enc(d.secrets.len(), 8));
        lemma_dec_u(s, p1, d.secrets.len(), 8);
        lemma_slice_within(s, 0, el, p2, el);
        assert(enc_doc(d).subrange(p2, el) =~= enc_secrets(d.secrets));
        assert(s.subrange(p2, p2 + enc_secrets(d.secrets).len()) == enc_secrets(d.secrets));
        lemma_dec_secrets(s, p2, d.secrets);
        assert((d.version as nat) as u8 == d.version);
        assert(dec_doc(s) matches Some(rd) && rd =~~= d);
    }
}

// ---------------------------------------------------------------------------
// Executable encoder.
// ---------------------------------------------------------------------------

fn hexdigit_of(d: u8) -> (c: char)
    requires
        d < 16,
    ensures
        c == hexdigit(d as nat),
{
    if d == 0 {
        '0'
    } else if d == 1 {
        '1'
    } else if d == 2 {
        '2'
    } else if d == 3 {
        '3'
    } else if d == 4 {
        '4'
    } else if d == 5 {
        '5'
    } else if d == 6 {
        '6'
    } else if d == 7 {
        '7'
    } else if d == 8 {
        '8'
    } else if d == 9 {
        '9'
    } else if d == 10 {
        'a'
    } else if d == 11 {
        'b'
    } else if d == 12 {
        'c'
    } else if d == 13 {
        'd'
    } else if d == 14 {
        'e'
    } else {
        'f'
    }
}

fn push_hex(out: &mut String, n: u128, w: usize)
    requires
        n < pow16(w as nat),
    ensures
        final(out)@ == old(out)@ + hex_enc(n as nat, w as nat),
    decreases w,
{
    if w == 0 {
    } else {
        proof {
            assert(n as nat == 16 * ((n as nat) / 16) + (n as nat) % 16);
            assert((n as nat) / 16 < pow16((w - 1) as nat));
        }
        push_hex(out, n / 16, w - 1);
        out.push(hexdigit_of((n % 16) as u8));
        proof {
            assert(out@ =~= old(out)@ + hex_enc(n as nat, w as nat));
        }
    }
}

fn push_str_field(out: &mut String, t: &String)
    requires
        t@.len() < LEN_LIMIT,
    ensures
        final(out)@ == old(out)@ + enc_str(t@),
{
    proof {
        lemma_len_limit_is_pow16_8();
    }
    let n = t.as_str().unicode_len();
    push_hex(out, n as u128, 8);
    out.append(t.as_str());
    proof {
        assert(out@ =~= old(out)@ + enc_str(t@));
    }
}

fn push_opt_field(out: &mut String, o: &Option<String>)
    requires
        opt_bounded(o.deep_view()),
    ensures
        final(out)@ == old(out)@ + enc_opt(o.deep_view()),
{
    match o {
        None => {
            out.push('0');
            proof {
                assert(out@ =~= old(out)@ + enc_opt(o.deep_view()));
            }
        },
        Some(t) => {
            out.push('1');
            push_str_field(out, t);
            proof {
                assert(out@ =~= old(out)@ + enc_opt(o.deep_view()));
            }
        },
    }
}

fn push_i64(out: &mut String, v: i64)
    ensures
        final(out)@ == old(out)@ + enc_i64(v),
{
    proof {
        lemma_i64_roundtrip(v);
    }
    let off: u64 = ((v as i128) + 0x8000_0000_0000_0000i128) as u64;
    proof {
        assert(off as nat == i64_off(v));
    }
    push_hex(out, off as u128, 16);
}

#[verifier::rlimit(100)]
fn push_secret(out: &mut String, s: &Secret)
    requires
        secret_bounded(s@),
    ensures
        final(out)@ == old(out)@ + enc_secret(s@),
{
    proof {
        lemma_len_limit_is_pow16_8();
    }
    push_hex(out, s.id, 32);
    push_str_field(out, &s.name);
    push_opt_field(out, &s.username);
    push_str_field(out, &s.password);
    push_opt_field(out, &s.url);
    push_opt_field(out, &s.notes);
    let ntags = s.tags.len();
    push_hex(out, ntags as u128, 8);
    let mut i: usize = 0;
    while i < ntags
        invariant
            ntags == s.tags.len(),
            i <= ntags,
            secret_bounded(s@),
            out@ == old(out)@ + hex_enc(s@.id as nat, 32) + enc_str(s@.name) + enc_opt(
                s@.username,
            ) + enc_str(s@.password) + enc_opt(s@.url) + enc_opt(s@.notes) + hex_enc(
                s@.tags.len(),
                8,
            ) + enc_strs(s@.tags.take(i as int)),
        decreases ntags - i,
    {
        proof {
            assert(s@.tags[i as int] == s.tags@[i as int]@);
            assert(s@.tags[i as int].len() < LEN_LIMIT);
        }
        push_str_field(out, &s.tags[i]);
        proof {
            lemma_enc_strs_push(s@.tags.take(i as int), s@.tags[i as int]);
            assert(s@.tags.take(i as int).push(s@.tags[i as int]) =~~= s@.tags.take(i as int + 1));
            assert(out@ =~= old(out)@ + hex_enc(s@.id as nat, 32) + enc_str(s@.name) + enc_opt(
                s@.username,
            ) + enc_str(s@.password) + enc_opt(s@.url) + enc_opt(s@.notes) + hex_enc(
                s@.tags.len(),
                8,
            ) + enc_strs(s@.tags.take(i as int + 1)));
        }
        i = i + 1;
    }
    push_i64(out, s.created_at);
    push_i64(out, s.updated_at);
    proof {
        assert(s@.tags.take(ntags as int) =~= s@.tags);
        assert(out@ =~= old(out)@ + enc_secret(s@));
    }
}

proof fn lemma_enc_strs_push(ts: Seq<Seq<char>>, t: Seq<char>)
    ensures
        enc_strs(ts.push(t)) == enc_strs(ts) + enc_str(t),
    decreases ts.len(),
{
    let a = ts.push(t);
    if ts.len() == 0 {
        assert(a[0] == t);
        assert(a.drop_first() =~~= Seq::<Seq<char>>::empty());
        assert(enc_strs(a) == enc_str(t) + enc_strs(Seq::<Seq<char>>::empty()));
        assert(enc_strs(a) =~= enc_strs(ts) + enc_str(t));
    } else {
        assert(a.drop_first() =~~= ts.drop_first().push(t));
        lemma_enc_strs_push(ts.drop_first(), t);
        assert(a[0] == ts[0]);
        assert(enc_strs(a) == enc_str(ts[0]) + enc_strs(a.drop_first()));
        assert(enc_strs(a.drop_first()) == enc_strs(ts.drop_first().push(t)));
        assert(enc_strs(a) =~= enc_strs(ts) + enc_str(t));
    }
}

proof fn lemma_enc_secrets_push(ss: Seq<SecretView>, x: SecretView)
    ensures
        enc_secrets(ss.push(x)) == enc_secrets(ss) + enc_secret(x),
    decreases ss.len(),
{
    let a = ss.push(x);
    if ss.len() == 0 {
        assert(a[0] == x);
        assert(a.drop_first() =~~= Seq::<SecretView>::empty());
        assert(enc_secrets(a) == enc_secret(x) + enc_secrets(Seq::<SecretView>::empty()));
        assert(enc_secrets(a) =~= enc_secrets(ss) + enc_secret(x));
    } else {
        assert(a.drop_first() =~~= ss.drop_first().push(x));
        lemma_enc_secrets_push(ss.drop_first(), x);
        assert(a[0] == ss[0]);
        assert(enc_secrets(a) == enc_secret(ss[0]) + enc_secrets(a.drop_first()));
        assert(enc_secrets(a.drop_first()) == enc_secrets(ss.drop_first().push(x)));
        assert(enc_secrets(a) =~= enc_secrets(ss) + enc_secret(x));
    }
}

/// Encode a whole document as its plaintext payload. Decoding the result
/// yields the document back.
pub fn encode_doc(d: &VaultData) -> (r: String)
    requires
        doc_bounded(d@),
    ensures
        r@ == enc_doc(d@),
        dec_doc(r@) == Some(d@),
{
    proof {
        lemma_len_limit_is_pow16_8();
        lemma_doc_round_trip(d@);
    }
    let mut out = String::new();
    push_hex(&mut out, d.version as u128, 2);
    let n = d.secrets.len();
    push_hex(&mut out, n as u128, 8);
    let mut i: usize = 0;
    while i < n
        invariant
            n == d.secrets.len(),
            i <= n,
            doc_bounded(d@),
            out@ == hex_enc(d@.version as nat, 2) + hex_enc(d@.secrets.len(), 8) + enc_secrets(
                d@.secrets.take(i as int),
            ),
        decreases n - i,
    {
        proof {
            assert(d@.secrets[i as int] == d.secrets@[i as int]@);
        }
        push_secret(&mut out, &d.secrets[i]);
        proof {
            lemma_enc_secrets_push(d@.secrets.take(i as int), d@.secrets[i as int]);
            assert(d@.secrets.take(i as int).push(d@.secrets[i as int]) =~~= d@.secrets.take(
                i as int + 1,
            ));
            assert(out@ =~= hex_enc(d@.version as nat, 2) + hex_enc(d@.secrets.len(), 8)
                + enc_secrets(d@.secrets.take(i as int + 1)));
        }
        i = i + 1;
    }
    proof {
        assert(d@.secrets.take(n as int) =~= d@.secrets);
        assert(out@ =~= enc_doc(d@));
    }
    out
}

// ---------------------------------------------------------------------------
// Executable decoder.
// ---------------------------------------------------------------------------

fn hexval_of(c: char) -> (r: Option<u8>)
    ensures
        match hexval(c) {
            Some(n) => r matches Some(d) && d as nat == n,
            None => r is None,
        },
{
    if c == '0' {
        Some(0)
    } else if c == '1' {
        Some(1)
    } else if c == '2' {
        Some(2)
    } else if c == '3' {
        Some(3)
    } else if c == '4' {
        Some(4)
    } else if c == '5' {
        Some(5)
    } else if c == '6' {
        Some(6)
    } else if c == '7' {
        Some(7)
    } else if c == '8' {
        Some(8)
    } else if c == '9' {
        Some(9)
    } else if c == 'a' {
        Some(10)
    } else if c == 'b' {
        Some(11)
    } else if c == 'c' {
        Some(12)
    } else if c == 'd' {
        Some(13)
    } else if c == 'e' {
        Some(14)
    } else if c == 'f' {
        Some(15)
    } else {
        None
    }
}

fn parse_hex(s: &str, pos: usize, w: usize) -> (r: Option<(u128, usize)>)
    requires
        w <= 32,
    ensures
        match dec_u(s@, pos as int, w as nat) {
            Some(p) => r matches Some(q) && q.0 as nat == p.0 && q.1 as int == p.1,
            None => r is None,
        },
{
    let n = s.unicode_len();
    if pos > n || w > n - pos {
        return None;
    }
    let ghost whole = s@.subrange(pos as int, pos as int + w as int);
    let mut acc: u128 = 0;
    let mut i: usize = 0;
    while i < w
        invariant
            w <= 32,
            pos + w <= n,
            n == s@.len(),
            i <= w,
            whole == s@.subrange(pos as int, pos as int + w as int),
            hex_dec(s@.subrange(pos as int, pos as int + i as int)) == Some(acc as nat),
            (acc as nat) < pow16(i as nat),
        decreases w - i,
    {
        let c = s.get_char(pos + i);
        match hexval_of(c) {
            Some(d) => {
                proof {
                    let pre = s@.subrange(pos as int, pos as int + i as int);
                    let ext = s@.subrange(pos as int, pos as int + i as int + 1);
                    assert(ext.drop_last() =~= pre);
                    assert(ext.last() == s@[pos as int + i as int]);
                    lemma_pow16_mono((i + 1) as nat, 32);
                    lemma_len_limit_is_pow16_8();
                    assert((acc as nat + 1) * 16 <= pow16(i as nat) * 16);
                    assert(pow16((i + 1) as nat) == 16 * pow16(i as nat));
                }
                acc = acc * 16 + (d as u128);
                i = i + 1;
            },
            None => {
                proof {
                    assert(whole[i as int] == s@[pos as int + i as int]);
                    lemma_hex_dec_bad(whole, i as int);
                }
                return None;
            },
        }
    }
    proof {
        assert(s@.subrange(pos as int, pos as int + w as int) == whole);
    }
    Some((acc, pos + w))
}

fn parse_str(s: &str, pos: usize) -> (r: Option<(String, usize)>)
    ensures
        match dec_str(s@, pos as int) {
            Some(p) => r matches Some(q) && q.0@ == p.0 && q.1 as int == p.1,
            None => r is None,
        },
{
    match parse_hex(s, pos, 8) {
        None => None,
        Some((len_val, p)) => {
            proof {
                lemma_hex_dec_bound(s@.subrange(pos as int, pos as int + 8));
                lemma_len_limit_is_pow16_8();
            }
            let len_u = len_val as usize;
            let n = s.unicode_len();
            if len_u > n - p {
                return None;
            }
            let mut out = String::new();
            let mut i: usize = 0;
            while i < len_u
                invariant
                    p + len_u <= n,
                    n == s@.len(),
                    i <= len_u,
                    out@ == s@.subrange(p as int, p as int + i as int),
                decreases len_u - i,
            {
                out.push(s.get_char(p + i));
                proof {
                    assert(out@ =~= s@.subrange(p as int, p as int + i as int + 1));
                }
                i = i + 1;
            }
            Some((out, p + len_u))
        },
    }
}

fn parse_opt(s: &str, pos: usize) -> (r: Option<(Option<String>, usize)>)
    ensures
        match dec_opt(s@, pos as int) {
            Some(p) => r matches Some(q) && q.0.deep_view() == p.0 && q.1 as int == p.1,
            None => r is None,
        },
{
    let n = s.unicode_len();
    if pos >= n {
        return None;
    }
    let c = s.get_char(pos);
    if c == '0' {
        Some((None, pos + 1))
    } else if c == '1' {
        match parse_str(s, pos + 1) {
            Some((t, p)) => Some((Some(t), p)),
            None => None,
        }
    } else {
        None
    }
}

/// The result of decoding `k` more strings and prepending already-decoded ones.
spec fn join_strs(prefix: Seq<Seq<char>>, rest: Option<(Seq<Seq<char>>, int)>) -> Option<
    (Seq<Seq<char>>, int),
> {
    match rest {
        Some((ts, q)) => Some((prefix + ts, q)),
        None => None,
    }
}

fn parse_strs(s: &str, pos: usize, k: usize) -> (r: Option<(Vec<String>, usize)>)
    requires
        pos <= s@.len(),
    ensures
        match dec_strs(s@, pos as int, k as nat) {
            Some(p) => r matches Some(q) && q.0.deep_view() == p.0 && q.1 as int == p.1,
            None => r is None,
        },
{
    let mut out: Vec<String> = Vec::new();
    let mut cur = pos;
    let mut i: usize = 0;
    while i < k
        invariant
            i <= k,
            cur <= s@.len(),
            dec_strs(s@, pos as int, k as nat) == join_strs(
                out.deep_view(),
                dec_strs(s@, cur as int, (k - i) as nat),
            ),
        decreases k - i,
    {
        match parse_str(s, cur) {
            None => {
                return None;
            },
            Some((t, p)) => {
                proof {
                    let ghost old_prefix = out.deep_view();
                    assert(dec_str(s@, cur as int) matches Some(dp) && dp.0 == t@ && dp.1
                        == p as int);
                }
                let ghost old_out = out.deep_view();
                out.push(t);
                proof {
                    assert(out.deep_view() =~~= old_out.push(t@));
                    match dec_strs(s@, p as int, (k - i - 1) as nat) {
                        Some((ts, q)) => {
                            assert(old_out + (seq![t@] + ts) =~~= old_out.push(t@) + ts);
                        },
                        None => {},
                    }
                }
                cur = p;
                i = i + 1;
            },
        }
    }
    proof {
        assert(out.deep_view() + Seq::<Seq<char>>::empty() =~~= out.deep_view());
    }
    Some((out, cur))
}

fn parse_i64(s: &str, pos: usize) -> (r: Option<(i64, usize)>)
    ensures
        match dec_u(s@, pos as int, 16) {
            Some(p) => r matches Some(q) && q.0 == i64_unoff(p.0) && q.1 as int == p.1,
            None => r is None,
        },
{
    match parse_hex(s, pos, 16) {
        None => None,
        Some((nv, p)) => {
            proof {
                lemma_hex_dec_bound(s@.subrange(pos as int, pos as int + 16));
                lemma_len_limit_is_pow16_8();
            }
            let v: i64 = ((nv as i128) - 0x8000_0000_0000_0000i128) as i64;
            proof {
                assert(v == i64_unoff(nv as nat));
            }
            Some((v, p))
        },
    }
}

fn parse_secret(s: &str, pos: usize) -> (r: Option<(Secret, usize)>)
    ensures
        match dec_secret(s@, pos as int) {
            Some(p) => r matches Some(q) && q.0@ == p.0 && q.1 as int == p.1,
            None => r is None,
        },
{
    let id_r = match parse_hex(s, pos, 32) {
        Some(x) => x,
        None => {
            return None;
        },
    };
    let name_r = match parse_str(s, id_r.1) {
        Some(x) => x,
        None => {
            return None;
        },
    };
    let user_r = match parse_opt(s, name_r.1) {
        Some(x) => x,
        None => {
            return None;
        },
    };
    let pw_r = match parse_str(s, user_r.1) {
        Some(x) => x,
        None => {
            return None;
        },
    };
    let url_r = match parse_opt(s, pw_r.1) {
        Some(x) => x,
        None => {
            return None;
        },
    };
    let notes_r = match parse_opt(s, url_r.1) {
        Some(x) => x,
        None => {
            return None;
        },
    };
    let ntags_r = match parse_hex(s, notes_r.1, 8) {
        Some(x) => x,
        None => {
            return None;
        },
    };
    proof {
        lemma_hex_dec_bound(s@.subrange(notes_r.1 as int, notes_r.1 as int + 8));
        lemma_len_limit_is_pow16_8();
        assert(ntags_r.1 as int <= s@.len());
    }
    let tags_r = match parse_strs(s, ntags_r.1, ntags_r.0 as usize) {
        Some(x) => x,
        None => {
            return None;
        },
    };
    let ca_r = match parse_i64(s, tags_r.1) {
        Some(x) => x,
        None => {
            return None;
        },
    };
    let ua_r = match parse_i64(s, ca_r.1) {
        Some(x) => x,
        None => {
            return None;
        },
    };
    let sec = Secret {
        id: id_r.0,
        name: name_r.0,
        username: user_r.0,
        password: pw_r.0,
        url: url_r.0,
        notes: notes_r.0,
        tags: tags_r.0,
        created_at: ca_r.0,
        updated_at: ua_r.0,
    };
    proof {
        match dec_secret(s@, pos as int) {
            Some(p) => {
                assert(sec@ =~~= p.0);
            },
            None => {},
        }
    }
    Some((sec, ua_r.1))
}

/// The result of decoding `k` more records and prepending already-decoded ones.
spec fn join_secrets(prefix: Seq<SecretView>, rest: Option<(Seq<SecretView>, int)>) -> Option<
    (Seq<SecretView>, int),
> {
    match rest {
        Some((ss, q)) => Some((prefix + ss, q)),
        None => None,
    }
}

fn parse_secrets(s: &str, pos: usize, k: usize) -> (r: Option<(Vec<Secret>, usize)>)
    requires
        pos <= s@.len(),
    ensures
        match dec_secrets(s@, pos as int, k as nat) {
            Some(p) => r matches Some(q) && q.0.deep_view() == p.0 && q.1 as int == p.1,
            None => r is None,
        },
{
    let mut out: Vec<Secret> = Vec::new();
    let mut cur = pos;
    let mut i: usize = 0;
    while i < k
        invariant
            i <= k,
            cur <= s@.len(),
            dec_secrets(s@, pos as int, k as nat) == join_secrets(
                out.deep_view(),
                dec_secrets(s@, cur as int, (k - i) as nat),
            ),
        decreases k - i,
    {
        match parse_secret(s, cur) {
            None => {
                return None;
            },
            Some((sec, p)) => {
                proof {
                    assert(dec_secret(s@, cur as int) matches Some(dp) && dp.1 == p as int
                        && dp.1 <= s@.len()) by {
                        match dec_secrets(s@, cur as int, (k - i) as nat) {
                            Some(_) => {
                                lemma_dec_secrets_pos(s@, cur as int, (k - i) as nat);
                            },
                            None => {},
                        }
                    }
                }
                let ghost old_out = out.deep_view();
                out.push(sec);
                proof {
                    assert(out.deep_view() =~~= old_out.push(sec@));
                    match dec_secrets(s@, p as int, (k - i - 1) as nat) {
                        Some((ss, q)) => {
                            assert(old_out + (seq![sec@] + ss) =~~= old_out.push(sec@) + ss);
                        },
                        None => {},
                    }
                }
                cur = p;
                i = i + 1;
            },
        }
    }
    proof {
        assert(out.deep_view() + Seq::<SecretView>::empty() =~~= out.deep_view());
    }
    Some((out, cur))
}

/// A successful decode never moves the position past the end of the text.
proof fn lemma_dec_secrets_pos(s: Seq<char>, pos: int, k: nat)
    requires
        dec_secrets(s, pos, k) is Some,
        pos <= s.len(),
    ensures
        dec_secrets(s, pos, k) matches Some(p) && pos <= p.1 <= s.len(),
    decreases k,
{
    if k > 0 {
        let (sv, p) = dec_secret(s, pos).unwrap();
        lemma_dec_secret_pos(s, pos);
        lemma_dec_secrets_pos(s, p, (k - 1) as nat);
    }
}

proof fn lemma_dec_secret_pos(s: Seq<char>, pos: int)
    requires
        dec_secret(s, pos) is Some,
    ensures
        dec_secret(s, pos) matches Some(p) && pos <= p.1 <= s.len(),
{
    let (id, p1) = dec_u(s, pos, 32).unwrap();
    let (name, p2) = dec_str(s, p1).unwrap();
    let (user, p3) = dec_opt(s, p2).unwrap();
    let (pw, p4) = dec_str(s, p3).unwrap();
    let (url, p5) = dec_opt(s, p4).unwrap();
    let (notes, p6) = dec_opt(s, p5).unwrap();
    let (ntags, p7) = dec_u(s, p6, 8).unwrap();
    let (tags, p8) = dec_strs(s, p7, ntags).unwrap();
    lemma_dec_strs_pos(s, p7, ntags);
    let (ca, p9) = dec_u(s, p8, 16).unwrap();
    let (ua, p10) = dec_u(s, p9, 16).unwrap();
}

proof fn lemma_dec_strs_pos(s: Seq<char>, pos: int, k: nat)
    requires
        dec_strs(s, pos, k) is Some,
        pos <= s.len(),
    ensures
        dec_strs(s, pos, k) matches Some(p) && pos <= p.1 <= s.len(),
    decreases k,
{
    if k > 0 {
        let (t, p) = dec_str(s, pos).unwrap();
        lemma_dec_strs_pos(s, p, (k - 1) as nat);
    }
}

/// Decode a whole plaintext payload back into a document.
pub fn decode_doc(s: &str) -> (r: Option<VaultData>)
    ensures
        match dec_doc(s@) {
            Some(d) => r matches Some(v) && v@ == d,
            None => r is None,
        },
{
    let ver_r = match parse_hex(s, 0, 2) {
        Some(x) => x,
        None => {
            return None;
        },
    };
    let cnt_r = match parse_hex(s, ver_r.1, 8) {
        Some(x) => x,
        None => {
            return None;
        },
    };
    proof {
        lemma_hex_dec_bound(s@.subrange(0, 2));
        lemma_hex_dec_bound(s@.subrange(ver_r.1 as int, ver_r.1 as int + 8));
        lemma_len_limit_is_pow16_8();
        lemma_pow16_mono(2, 8);
    }
    let secrets_r = match parse_secrets(s, cnt_r.1, cnt_r.0 as usize) {
        Some(x) => x,
        None => {
            return None;
        },
    };
    if secrets_r.1 != s.unicode_len() {
        return None;
    }
    let d = VaultData { version: ver_r.0 as u8, secrets: secrets_r.0 };
    proof {
        match dec_doc(s@) {
            Some(dv) => {
                assert(d@ =~~= dv);
            },
            None => {},
        }
    }
    Some(d)
}

} // verus!
