//! The text content of each screen, computed pure of any terminal concern.
//!
//! These functions decide what the screens say; how the strings are styled
//! and laid out on the terminal is left to the binary around the library.

use vstd::prelude::*;
use crate::strutil::{dec_chars, push_dec, join_comma_space, join_tags};

verus! {

/// A string of `n` mask bullets.
pub open spec fn bullets(n: nat) -> Seq<char>
    decreases n,
{
    if n == 0 {
        Seq::empty()
    } else {
        bullets((n - 1) as nat).push('\u{2022}')
    }
}

/// `n` mask bullets.
pub fn masked(n: usize) -> (r: String)
    ensures
        r@ == bullets(n as nat),
        r@.len() == n,
{
    let mut out = String::new();
    let mut i: usize = 0;
    while i < n
        invariant
            i <= n,
            out@ == bullets(i as nat),
            out@.len() == i,
        decreases n - i,
    {
        out.push('\u{2022}');
        i = i + 1;
    }
    out
}

/// The password line of the detail screen: the password itself when shown,
/// else one bullet per character, clamped to thirty bullets.
pub fn detail_password_text(password: &String, show: bool) -> (r: String)
    ensures
        show ==> r@ == password@,
        !show ==> r@ == bullets(if password@.len() < 30 {
            password@.len()
        } else {
            30
        }),
{
    if show {
        password.clone()
    } else {
        let len = password.as_str().unicode_len();
        masked(
            if len < 30 {
                len
            } else {
                30
            },
        )
    }
}

/// The password row of the form screen: the draft text when shown, else one
/// bullet per character.
pub fn form_password_text(password: &String, show: bool) -> (r: String)
    ensures
        show ==> r@ == password@,
        !show ==> r@ == bullets(password@.len()),
{
    if show {
        password.clone()
    } else {
        masked(password.as_str().unicode_len())
    }
}

/// The masked master-password input of the unlock screen.
pub fn unlock_masked(input: &String) -> (r: String)
    ensures
        r@ == bullets(input@.len()),
{
    masked(input.as_str().unicode_len())
}

/// The unlock hint: whether a vault file was found at the path.
pub fn unlock_hint(vault_found: bool) -> (r: &'static str)
    ensures
        vault_found ==> r@ == "Vault found \u{2014} enter master password"@,
        !vault_found ==> r@ == "No vault found \u{2014} will be created"@,
{
    if vault_found {
        "Vault found \u{2014} enter master password"
    } else {
        "No vault found \u{2014} will be created"
    }
}

/// An optional field of the detail screen: its text, or an em dash when
/// absent.
pub fn opt_field_text(o: &Option<String>) -> (r: String)
    ensures
        o matches Some(t) ==> r@ == t@,
        o is None ==> r@ == "\u{2014}"@,
{
    match o {
        Some(t) => t.clone(),
        None => String::from_str("\u{2014}"),
    }
}

/// The tag line of the detail screen: the tags joined, or an em dash when
/// there are none.
pub fn detail_tags_text(tags: &Vec<String>) -> (r: String)
    ensures
        tags@.len() == 0 ==> r@ == "\u{2014}"@,
        tags@.len() > 0 ==> r@ == join_comma_space(tags.deep_view()),
{
    if tags.len() == 0 {
        String::from_str("\u{2014}")
    } else {
        join_tags(tags)
    }
}

/// The bracketed tag suffix of a list row: empty without tags.
pub fn list_tags_text(tags: &Vec<String>) -> (r: String)
    ensures
        tags@.len() == 0 ==> r@ == Seq::<char>::empty(),
        tags@.len() > 0 ==> r@ == " ["@ + join_comma_space(tags.deep_view()) + "]"@,
{
    if tags.len() == 0 {
        String::new()
    } else {
        let mut out = String::from_str(" [");
        let j = join_tags(tags);
        out.append(j.as_str());
        out.append("]");
        proof {
            assert(out@ =~= " ["@ + join_comma_space(tags.deep_view()) + "]"@);
        }
        out
    }
}

/// The list title: the vault name and how many secrets it holds in all.
pub fn list_title(total: usize) -> (r: String)
    ensures
        r@ == " VALT - "@ + dec_chars(total as nat) + " secret"@ + (if total == 1 {
            Seq::<char>::empty()
        } else {
            "s"@
        }) + " "@,
{
    let mut out = String::from_str(" VALT - ");
    push_dec(&mut out, total as u64);
    out.append(" secret");
    if total != 1 {
        out.append("s");
    }
    out.append(" ");
    proof {
        assert(out@ =~= " VALT - "@ + dec_chars(total as nat) + " secret"@ + (if total == 1 {
            Seq::<char>::empty()
        } else {
            "s"@
        }) + " "@);
    }
    out
}

/// The suffix of the list status bar while a clipboard deadline is armed.
pub fn clipboard_countdown(secs: u32) -> (r: String)
    ensures
        r@ == "  [clipboard clears in "@ + dec_chars(secs as nat) + "s]"@,
{
    let mut out = String::from_str("  [clipboard clears in ");
    push_dec(&mut out, secs as u64);
    out.append("s]");
    proof {
        assert(out@ =~= "  [clipboard clears in "@ + dec_chars(secs as nat) + "s]"@);
    }
    out
}

/// The copy hint of the detail screen, with the countdown when armed.
pub fn copy_hint(secs: Option<u32>) -> (r: String)
    ensures
        secs matches Some(s) ==> r@ == "[c] Copy  (clears in "@ + dec_chars(s as nat) + "s)"@,
        secs is None ==> r@ == "[c] Copy password"@,
{
    match secs {
        Some(s) => {
            let mut out = String::from_str("[c] Copy  (clears in ");
            push_dec(&mut out, s as u64);
            out.append("s)");
            proof {
                assert(out@ =~= "[c] Copy  (clears in "@ + dec_chars(s as nat) + "s)"@);
            }
            out
        },
        None => String::from_str("[c] Copy password"),
    }
}

} // verus!
