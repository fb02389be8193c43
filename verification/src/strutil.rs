//! Small verified helpers for building and inspecting strings, together with
//! contracts for the few `String` mutators of std that vstd leaves unspecified.

use vstd::prelude::*;

verus! {

pub assume_specification[ String::push ](s: &mut String, ch: char)
    ensures
        final(s)@ == old(s)@.push(ch),
;

pub assume_specification[ String::pop ](s: &mut String) -> (r: Option<char>)
    ensures
        old(s)@.len() > 0 ==> r == Some(old(s)@[old(s)@.len() - 1]) && final(s)@ == old(s)@.subrange(
            0,
            old(s)@.len() - 1,
        ),
        old(s)@.len() == 0 ==> r == None::<char> && final(s)@ == old(s)@,
;

pub assume_specification[ String::clear ](s: &mut String)
    ensures
        final(s)@ == Seq::<char>::empty(),
;

/// The decimal digit character for a value below ten.
pub open spec fn digit_char(n: nat) -> char {
    if n == 0 {
        '0'
    } else if n == 1 {
        '1'
    } else if n == 2 {
        '2'
    } else if n == 3 {
        '3'
    } else if n == 4 {
        '4'
    } else if n == 5 {
        '5'
    } else if n == 6 {
        '6'
    } else if n == 7 {
        '7'
    } else if n == 8 {
        '8'
    } else {
        '9'
    }
}

/// Decimal notation of a natural number, most significant digit first.
pub open spec fn dec_chars(n: nat) -> Seq<char>
    decreases n,
{
    if n < 10 {
        seq![digit_char(n)]
    } else {
        dec_chars(n / 10) + seq![digit_char(n % 10)]
    }
}

fn digit_char_of(n: u64) -> (c: char)
    requires
        n < 10,
    ensures
        c == digit_char(n as nat),
{
    if n == 0 {
        '0'
    } else if n == 1 {
        '1'
    } else if n == 2 {
        '2'
    } else if n == 3 {
        '3'
    } else if n == 4 {
        '4'
    } else if n == 5 {
        '5'
    } else if n == 6 {
        '6'
    } else if n == 7 {
        '7'
    } else if n == 8 {
        '8'
    } else {
        '9'
    }
}

/// Append the decimal notation of `n` to `out`.
pub fn push_dec(out: &mut String, n: u64)
    ensures
        final(out)@ == old(out)@ + dec_chars(n as nat),
    decreases n,
{
    if n < 10 {
        out.push(digit_char_of(n));
    } else {
        push_dec(out, n / 10);
        out.push(digit_char_of(n % 10));
        proof {
            assert(out@ =~= old(out)@ + dec_chars(n as nat));
        }
    }
}

/// The decimal notation of `n` as a fresh string.
pub fn dec_string(n: u64) -> (r: String)
    ensures
        r@ == dec_chars(n as nat),
{
    let mut s = String::new();
    push_dec(&mut s, n);
    proof {
        assert(s@ =~= dec_chars(n as nat));
    }
    s
}

/// Whether the character counts as whitespace.
pub uninterp spec fn is_space(c: char) -> bool;

/// Relies on `char::is_whitespace`: a property of the character alone.
#[verifier::external_body]
pub(crate) fn char_is_space(c: char) -> (r: bool)
    ensures
        r == is_space(c),
{
    c.is_whitespace()
}

/// Whether the string holds at least one non-whitespace character.
pub open spec fn has_visible(s: Seq<char>) -> bool {
    exists|i: int| 0 <= i < s.len() && !is_space(#[trigger] s[i])
}

/// Check whether the string holds a non-whitespace character.
pub fn check_has_visible(s: &str) -> (r: bool)
    ensures
        r == has_visible(s@),
{
    let n = s.unicode_len();
    let mut i: usize = 0;
    while i < n
        invariant
            n == s@.len(),
            i <= n,
            forall|k: int| 0 <= k < i ==> is_space(#[trigger] s@[k]),
        decreases n - i,
    {
        if !char_is_space(s.get_char(i)) {
            return true;
        }
        i = i + 1;
    }
    false
}

/// The strings joined with a comma and a space between neighbours.
pub open spec fn join_comma_space(ts: Seq<Seq<char>>) -> Seq<char>
    decreases ts.len(),
{
    if ts.len() == 0 {
        Seq::empty()
    } else if ts.len() == 1 {
        ts[0]
    } else {
        join_comma_space(ts.drop_last()) + ", "@ + ts.last()
    }
}

/// Join strings with `", "` between neighbours.
pub fn join_tags(ts: &Vec<String>) -> (r: String)
    ensures
        r@ == join_comma_space(ts.deep_view()),
{
    let mut out = String::new();
    let n = ts.len();
    let mut i: usize = 0;
    while i < n
        invariant
            n == ts.len(),
            i <= n,
            out@ == join_comma_space(ts.deep_view().take(i as int)),
        decreases n - i,
    {
        if i > 0 {
            out.append(", ");
        }
        out.append(ts[i].as_str());
        proof {
            let pre = ts.deep_view().take(i as int + 1);
            assert(pre.drop_last() =~~= ts.deep_view().take(i as int));
            assert(pre.last() == ts.deep_view()[i as int]);
            assert(ts.deep_view()[i as int] == ts@[i as int]@);
            if i == 0 {
                assert(out@ =~= join_comma_space(pre));
            } else {
                assert(out@ =~= join_comma_space(pre));
            }
        }
        i = i + 1;
    }
    proof {
        assert(ts.deep_view().take(n as int) =~~= ts.deep_view());
    }
    out
}

/// The string without leading whitespace.
pub open spec fn trim_front(s: Seq<char>) -> Seq<char>
    decreases s.len(),
{
    if s.len() > 0 && is_space(s[0]) {
        trim_front(s.drop_first())
    } else {
        s
    }
}

/// The string without trailing whitespace.
pub open spec fn trim_back(s: Seq<char>) -> Seq<char>
    decreases s.len(),
{
    if s.len() > 0 && is_space(s.last()) {
        trim_back(s.drop_last())
    } else {
        s
    }
}

/// The string without leading and trailing whitespace.
pub open spec fn trim_spec(s: Seq<char>) -> Seq<char> {
    trim_back(trim_front(s))
}

proof fn lemma_trim_front_skip(s: Seq<char>, a: int)
    requires
        0 <= a <= s.len(),
        forall|k: int| 0 <= k < a ==> is_space(#[trigger] s[k]),
        a < s.len() ==> !is_space(s[a]),
    ensures
        trim_front(s) == s.skip(a),
    decreases a,
{
    if a == 0 {
        assert(s.skip(0) =~= s);
    } else {
        assert(is_space(s[0]));
        lemma_trim_front_skip(s.drop_first(), a - 1);
        assert(s.drop_first().skip(a - 1) =~= s.skip(a));
    }
}

proof fn lemma_trim_back_take(s: Seq<char>, b: int)
    requires
        0 <= b <= s.len(),
        forall|k: int| b <= k < s.len() ==> is_space(#[trigger] s[k]),
        b > 0 ==> !is_space(s[b - 1]),
    ensures
        trim_back(s) == s.take(b),
    decreases s.len() - b,
{
    if b == s.len() {
        assert(s.take(b) =~= s);
    } else {
        assert(is_space(s.last()));
        lemma_trim_back_take(s.drop_last(), b);
        assert(s.drop_last().take(b) =~= s.take(b));
    }
}

/// Copy the characters `from..to` of `s` into a fresh string.
fn substring_of(s: &str, from: usize, to: usize) -> (r: String)
    requires
        from <= to <= s@.len(),
    ensures
        r@ == s@.subrange(from as int, to as int),
{
    let mut out = String::new();
    let mut i = from;
    while i < to
        invariant
            from <= i <= to,
            to <= s@.len(),
            out@ == s@.subrange(from as int, i as int),
        decreases to - i,
    {
        out.push(s.get_char(i));
        proof {
            assert(out@ =~= s@.subrange(from as int, i as int + 1));
        }
        i = i + 1;
    }
    out
}

/// The trimmed copy of `s`.
pub fn trim_str(s: &str) -> (r: String)
    ensures
        r@ == trim_spec(s@),
{
    let n = s.unicode_len();
    let mut a: usize = 0;
    while a < n && char_is_space(s.get_char(a))
        invariant
            a <= n,
            n == s@.len(),
            forall|k: int| 0 <= k < a ==> is_space(#[trigger] s@[k]),
        decreases n - a,
    {
        a = a + 1;
    }
    proof {
        lemma_trim_front_skip(s@, a as int);
    }
    if a == n {
        proof {
            assert(s@.skip(a as int) =~= Seq::<char>::empty());
            assert(trim_back(Seq::<char>::empty()) =~= Seq::<char>::empty());
        }
        return String::new();
    }
    let mut b: usize = n;
    while b > a && char_is_space(s.get_char(b - 1))
        invariant
            a <= b <= n,
            n == s@.len(),
            forall|k: int| b <= k < n ==> is_space(#[trigger] s@[k]),
        decreases b,
    {
        b = b - 1;
    }
    proof {
        let f = s@.skip(a as int);
        assert forall|k: int| (b - a) <= k < f.len() implies is_space(#[trigger] f[k]) by {
            assert(f[k] == s@[k + a]);
        }
        if b > a {
            assert(f[b - a - 1] == s@[b as int - 1]);
        }
        lemma_trim_back_take(f, b - a);
        assert(f.take(b - a) =~= s@.subrange(a as int, b as int));
    }
    substring_of(s, a, b)
}

/// The index of the first comma, or the length when there is none.
pub open spec fn first_comma(s: Seq<char>) -> nat
    decreases s.len(),
{
    if s.len() == 0 {
        0
    } else if s[0] == ',' {
        0
    } else {
        1 + first_comma(s.drop_first())
    }
}

proof fn lemma_first_comma(s: Seq<char>)
    ensures
        first_comma(s) <= s.len(),
        forall|k: int| 0 <= k < first_comma(s) ==> #[trigger] s[k] != ',',
        first_comma(s) < s.len() ==> s[first_comma(s) as int] == ',',
    decreases s.len(),
{
    if s.len() > 0 && s[0] != ',' {
        let d = s.drop_first();
        lemma_first_comma(d);
        assert forall|k: int| 0 <= k < first_comma(s) implies #[trigger] s[k] != ',' by {
            if k > 0 {
                assert(d[k - 1] == s[k]);
            }
        }
        if first_comma(s) < s.len() {
            assert(d[first_comma(d) as int] == s[first_comma(s) as int]);
        }
    }
}

proof fn lemma_first_comma_at(t: Seq<char>, j: int)
    requires
        0 <= j <= t.len(),
        forall|k: int| 0 <= k < j ==> #[trigger] t[k] != ',',
        j < t.len() ==> t[j] == ',',
    ensures
        first_comma(t) == j,
    decreases j,
{
    if t.len() == 0 {
    } else if j == 0 {
    } else {
        let d = t.drop_first();
        assert forall|k: int| 0 <= k < j - 1 implies #[trigger] d[k] != ',' by {
            assert(d[k] == t[k + 1]);
        }
        if j - 1 < d.len() {
            assert(d[j - 1] == t[j]);
        }
        lemma_first_comma_at(d, j - 1);
    }
}

/// A trimmed piece, kept only when something is left of it.
pub open spec fn opt_piece(t: Seq<char>) -> Seq<Seq<char>> {
    if t.len() == 0 {
        Seq::empty()
    } else {
        seq![t]
    }
}

/// The comma-separated pieces of the string, each trimmed, empty pieces
/// dropped.
pub open spec fn split_trimmed(s: Seq<char>) -> Seq<Seq<char>>
    decreases s.len(),
{
    let i = first_comma(s) as int;
    if i < s.len() {
        opt_piece(trim_spec(s.take(i))) + split_trimmed(s.skip(i + 1))
    } else {
        opt_piece(trim_spec(s))
    }
}

/// Split on commas, trim each piece, and drop the empty ones.
pub fn split_tags(s: &str) -> (r: Vec<String>)
    ensures
        r.deep_view() == split_trimmed(s@),
{
    let n = s.unicode_len();
    let mut out: Vec<String> = Vec::new();
    let mut p: usize = 0;
    let mut done = false;
    proof {
        assert(s@.skip(0) =~= s@);
        assert(out.deep_view() =~~= Seq::<Seq<char>>::empty());
        assert(split_trimmed(s@) =~~= out.deep_view() + split_trimmed(s@.skip(0)));
    }
    while !done
        invariant
            n == s@.len(),
            p <= n,
            !done ==> split_trimmed(s@) == out.deep_view() + split_trimmed(s@.skip(p as int)),
            done ==> split_trimmed(s@) == out.deep_view(),
        decreases n - p + (if done {
            0int
        } else {
            1int
        }),
    {
        let ghost suffix = s@.skip(p as int);
        let mut j: usize = p;
        while j < n && s.get_char(j) != ','
            invariant
                p <= j <= n,
                n == s@.len(),
                forall|k: int| p <= k < j ==> #[trigger] s@[k] != ',',
            decreases n - j,
        {
            j = j + 1;
        }
        proof {
            assert forall|k: int| 0 <= k < j - p implies #[trigger] suffix[k] != ',' by {
                assert(suffix[k] == s@[k + p]);
            }
            if (j as int) - (p as int) < suffix.len() {
                assert(suffix[j as int - p as int] == s@[j as int]);
            }
            lemma_first_comma_at(suffix, j as int - p as int);
        }
        let sub = substring_of(s, p, j);
        let piece = trim_str(sub.as_str());
        proof {
            assert(suffix.take(j as int - p as int) =~= s@.subrange(p as int, j as int));
        }
        let ghost old_dv = out.deep_view();
        let ghost old_seq = out@;
        let keep = piece.as_str().unicode_len() > 0;
        if keep {
            out.push(piece);
        }
        proof {
            if keep {
                assert(old_dv.len() == old_seq.len());
                assert(out@ == old_seq.push(out@[old_seq.len() as int]));
                assert forall|k: int| 0 <= k < out@.len() implies out.deep_view()[k] == (
                old_dv + opt_piece(trim_spec(suffix.take(j as int - p as int))))[k] by {
                    if k < old_seq.len() {
                        assert(out@[k] == old_seq[k]);
                        assert(out.deep_view()[k] == out@[k].deep_view());
                        assert(old_dv[k] == old_seq[k].deep_view());
                    } else {
                        assert(out.deep_view()[k] == out@[k].deep_view());
                    }
                }
                assert(out.deep_view() =~~= old_dv + opt_piece(
                    trim_spec(suffix.take(j as int - p as int)),
                ));
            } else {
                assert(out.deep_view() =~~= old_dv + opt_piece(
                    trim_spec(suffix.take(j as int - p as int)),
                ));
            }
            if j < n {
                assert(split_trimmed(suffix) == opt_piece(
                    trim_spec(suffix.take(j as int - p as int)),
                ) + split_trimmed(suffix.skip(j as int - p as int + 1)));
                assert(suffix.skip(j as int - p as int + 1) =~= s@.skip(j as int + 1));
            } else {
                assert(suffix.take(j as int - p as int) =~= suffix);
                assert(split_trimmed(suffix) == opt_piece(trim_spec(suffix)));
            }
            if j < n {
                assert(split_trimmed(s@) =~~= out.deep_view() + split_trimmed(
                    s@.skip(j as int + 1),
                ));
            } else {
                assert(split_trimmed(s@) =~~= out.deep_view());
            }
        }
        if j < n {
            p = j + 1;
        } else {
            p = j;
            done = true;
        }
    }
    out
}

} // verus!
