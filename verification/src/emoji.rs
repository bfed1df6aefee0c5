//! Emoji rendering of numbers.
//!
//! Each decimal digit becomes its keycap emoji ('8' becomes the billiard
//! ball), a decimal point becomes a bullet, and anything else becomes a
//! question mark, so a number formatted as text turns into a string of emoji
//! digits character by character.

use vstd::prelude::*;
use vstd::string::StrSliceExecFns;
use vstd::string::StringExecFns;

verus! {

/// The emoji rendering of one character.
pub open spec fn emoji_of_char(c: char) -> Seq<char> {
    if c == '0' {
        "0\u{fe0f}\u{20e3}"@
    } else if c == '1' {
        "1\u{fe0f}\u{20e3}"@
    } else if c == '2' {
        "2\u{fe0f}\u{20e3}"@
    } else if c == '3' {
        "3\u{fe0f}\u{20e3}"@
    } else if c == '4' {
        "4\u{fe0f}\u{20e3}"@
    } else if c == '5' {
        "5\u{fe0f}\u{20e3}"@
    } else if c == '6' {
        "6\u{fe0f}\u{20e3}"@
    } else if c == '7' {
        "7\u{fe0f}\u{20e3}"@
    } else if c == '8' {
        "\u{1f3b1}"@
    } else if c == '9' {
        "9\u{fe0f}\u{20e3}"@
    } else if c == '.' {
        "\u{2022}"@
    } else {
        "\u{2753}"@
    }
}

/// The emoji rendering of a string: each character rendered, in order.
pub open spec fn emoji_of(s: Seq<char>) -> Seq<char>
    decreases s.len(),
{
    if s.len() == 0 {
        Seq::empty()
    } else {
        emoji_of_char(s[0]) + emoji_of(s.drop_first())
    }
}

/// Rendering one more character appends its emoji.
proof fn lemma_emoji_of_push(s: Seq<char>, c: char)
    ensures
        emoji_of(s.push(c)) == emoji_of(s) + emoji_of_char(c),
    decreases s.len(),
{
    if s.len() == 0 {
        assert(s.push(c)[0] == c);
        assert(s.push(c).drop_first() =~= Seq::<char>::empty());
        assert(emoji_of(s.push(c)) == emoji_of_char(c) + emoji_of(Seq::<char>::empty()));
        assert(emoji_of_char(c) + Seq::<char>::empty() =~= emoji_of_char(c));
        assert(Seq::<char>::empty() + emoji_of_char(c) =~= emoji_of_char(c));
    } else {
        lemma_emoji_of_push(s.drop_first(), c);
        assert(s.push(c)[0] == s[0]);
        assert(s.push(c).drop_first() =~= s.drop_first().push(c));
        assert(emoji_of(s) + emoji_of_char(c) =~= emoji_of_char(s[0]) + (emoji_of(s.drop_first())
            + emoji_of_char(c)));
    }
}

/// Render `s` — a number already formatted as text — as emoji digits.
pub fn to_emoji_number(s: &str) -> (r: String)
    ensures
        r@ == emoji_of(s@),
{
    let n = s.unicode_len();
    let mut out = String::new();
    let mut i: usize = 0;
    proof {
        assert(s@.take(0) =~= Seq::<char>::empty());
    }
    while i < n
        invariant
            0 <= i <= n,
            n == s@.len(),
            out@ == emoji_of(s@.take(i as int)),
        decreases n - i,
    {
        let c = s.get_char(i);
        if c == '0' {
            out.append("0\u{fe0f}\u{20e3}");
        } else if c == '1' {
            out.append("1\u{fe0f}\u{20e3}");
        } else if c == '2' {
            out.append("2\u{fe0f}\u{20e3}");
        } else if c == '3' {
            out.append("3\u{fe0f}\u{20e3}");
        } else if c == '4' {
            out.append("4\u{fe0f}\u{20e3}");
        } else if c == '5' {
            out.append("5\u{fe0f}\u{20e3}");
        } else if c == '6' {
            out.append("6\u{fe0f}\u{20e3}");
        } else if c == '7' {
            out.append("7\u{fe0f}\u{20e3}");
        } else if c == '8' {
            out.append("\u{1f3b1}");
        } else if c == '9' {
            out.append("9\u{fe0f}\u{20e3}");
        } else if c == '.' {
            out.append("\u{2022}");
        } else {
            out.append("\u{2753}");
        }
        proof {
            lemma_emoji_of_push(s@.take(i as int), s@[i as int]);
            assert(s@.take(i as int).push(s@[i as int]) =~= s@.take(i + 1));
        }
        i += 1;
    }
    proof {
        assert(s@.take(n as int) =~= s@);
    }
    out
}

} // verus!
