//! Character-stream model of the generated output.
//!
//! The generator appends characters to a growing stream.  Two facts about
//! that stream are tracked through every production: whether the appended
//! characters are all ASCII, and whether the brace characters `{` / `}`
//! pair up like a well-nested block structure.

use vstd::prelude::*;
use vstd::utf8::is_ascii_chars;

verus! {

/// Number of `{` characters in `s`.
pub open spec fn opens(s: Seq<char>) -> int
    decreases s.len(),
{
    if s.len() == 0 {
        0
    } else {
        opens(s.drop_last()) + if s.last() == '{' {
            1int
        } else {
            0int
        }
    }
}

/// Number of `}` characters in `s`.
pub open spec fn closes(s: Seq<char>) -> int
    decreases s.len(),
{
    if s.len() == 0 {
        0
    } else {
        closes(s.drop_last()) + if s.last() == '}' {
            1int
        } else {
            0int
        }
    }
}

/// In every prefix of `s`, closing braces never outnumber opening ones.
pub open spec fn prefix_safe(s: Seq<char>) -> bool {
    forall|i: int| 0 <= i <= s.len() ==> opens(#[trigger] s.take(i)) >= closes(s.take(i))
}

/// The brace characters of `s` pair up: every opened block is closed, and
/// no close comes before its open.
pub open spec fn braces_balanced(s: Seq<char>) -> bool {
    opens(s) == closes(s) && prefix_safe(s)
}

/// `s` holds no brace character at all.
pub open spec fn brace_free(s: Seq<char>) -> bool {
    forall|i: int| 0 <= i < s.len() ==> s[i] != '{' && s[i] != '}'
}

/// An ASCII sequence without braces: safe to splice into any context.
pub open spec fn plain(s: Seq<char>) -> bool {
    is_ascii_chars(s) && brace_free(s)
}

/// Decimal digit.
pub open spec fn dec_digit(c: char) -> bool {
    '0' <= c <= '9'
}

/// Hexadecimal digit, either case.
pub open spec fn hex_digit(c: char) -> bool {
    dec_digit(c) || ('a' <= c <= 'f') || ('A' <= c <= 'F')
}

/// Octal digit.
pub open spec fn oct_digit(c: char) -> bool {
    '0' <= c <= '7'
}

/// Binary digit.
pub open spec fn bin_digit(c: char) -> bool {
    c == '0' || c == '1'
}

/// ASCII word character: letter, digit or underscore.
pub open spec fn word_char(c: char) -> bool {
    dec_digit(c) || ('a' <= c <= 'z') || ('A' <= c <= 'Z') || c == '_'
}

/// The grammar's line-break characters.
pub open spec fn newline_char(c: char) -> bool {
    c == '\u{000D}' || c == '\u{000A}' || c == '\u{000C}' || c == '\u{0085}' || c == '\u{2028}'
        || c == '\u{2029}'
}

/// The grammar's non-breaking whitespace characters.
pub open spec fn space_char(c: char) -> bool {
    c == '\u{0009}' || c == '\u{0020}' || c == '\u{00A0}' || c == '\u{1680}' || ('\u{2000}' <= c
        <= '\u{200A}') || c == '\u{202F}' || c == '\u{205F}' || c == '\u{3000}'
}

/// A character that may appear in a bare identifier: anything except
/// delimiters, quotes, whitespace, line breaks, the byte-order mark, and
/// the letters `u` and `l` (their absence keeps every keyword spelling
/// out of reach).
pub open spec fn ident_char_ok(c: char) -> bool {
    &&& c != 'u' && c != 'l'
    &&& c != '\\' && c != '/' && c != '(' && c != ')' && c != '{' && c != '}'
    &&& c != '<' && c != '>' && c != ';' && c != '[' && c != ']' && c != '=' && c != ',' && c
        != '"'
    &&& !newline_char(c) && !space_char(c) && c != '\u{FEFF}'
}

/// No character sequence that avoids both `u` and `l` can spell one of
/// the grammar's keywords `true`, `false` or `null`: each keyword needs
/// one of those two letters.  Bare identifiers are built from such
/// characters only, so no bare identifier collides with a keyword.
pub proof fn lemma_no_ul_not_keyword(s: Seq<char>)
    requires
        forall|i: int| 0 <= i < s.len() ==> s[i] != 'u' && s[i] != 'l',
    ensures
        s != "true"@,
        s != "false"@,
        s != "null"@,
{
    reveal_strlit("true");
    reveal_strlit("false");
    reveal_strlit("null");
    if s == "true"@ {
        assert(s[2] == 'u');
    }
    if s == "false"@ {
        assert(s[2] == 'l');
    }
    if s == "null"@ {
        assert(s[1] == 'u');
    }
}

pub proof fn lemma_count_add(a: Seq<char>, b: Seq<char>)
    ensures
        opens(a + b) == opens(a) + opens(b),
        closes(a + b) == closes(a) + closes(b),
    decreases b.len(),
{
    if b.len() == 0 {
        assert(a + b =~= a);
    } else {
        lemma_count_add(a, b.drop_last());
        assert((a + b).drop_last() =~= a + b.drop_last());
        assert((a + b).last() == b.last());
    }
}

pub proof fn lemma_count_zero(s: Seq<char>)
    requires
        brace_free(s),
    ensures
        opens(s) == 0,
        closes(s) == 0,
    decreases s.len(),
{
    if s.len() > 0 {
        assert forall|i: int| 0 <= i < s.drop_last().len() implies s.drop_last()[i] != '{'
            && s.drop_last()[i] != '}' by {
            assert(s.drop_last()[i] == s[i]);
        }
        lemma_count_zero(s.drop_last());
        assert(s.last() == s[s.len() - 1]);
    }
}

pub proof fn lemma_balanced_empty()
    ensures
        braces_balanced(Seq::<char>::empty()),
{
    assert forall|i: int| 0 <= i <= Seq::<char>::empty().len() implies opens(
        #[trigger] Seq::<char>::empty().take(i),
    ) >= closes(Seq::<char>::empty().take(i)) by {
        assert(Seq::<char>::empty().take(i) =~= Seq::<char>::empty());
    }
}

pub proof fn lemma_brace_free_balanced(s: Seq<char>)
    requires
        brace_free(s),
    ensures
        braces_balanced(s),
{
    lemma_count_zero(s);
    assert forall|i: int| 0 <= i <= s.len() implies opens(#[trigger] s.take(i)) >= closes(
        s.take(i),
    ) by {
        assert forall|j: int| 0 <= j < s.take(i).len() implies s.take(i)[j] != '{' && s.take(i)[j]
            != '}' by {
            assert(s.take(i)[j] == s[j]);
        }
        lemma_count_zero(s.take(i));
    }
}

pub proof fn lemma_balanced_concat(a: Seq<char>, b: Seq<char>)
    requires
        braces_balanced(a),
        braces_balanced(b),
    ensures
        braces_balanced(a + b),
{
    lemma_count_add(a, b);
    assert forall|i: int| 0 <= i <= (a + b).len() implies opens(#[trigger] (a + b).take(i))
        >= closes((a + b).take(i)) by {
        if i <= a.len() {
            assert((a + b).take(i) =~= a.take(i));
            assert(opens(a.take(i)) >= closes(a.take(i)));
        } else {
            let j = i - a.len();
            assert((a + b).take(i) =~= a + b.take(j));
            lemma_count_add(a, b.take(j));
            assert(opens(b.take(j)) >= closes(b.take(j)));
        }
    }
}

pub proof fn lemma_balanced_wrap(b: Seq<char>)
    requires
        braces_balanced(b),
    ensures
        braces_balanced(seq!['{'] + b + seq!['}']),
{
    let open_c = seq!['{'];
    let close_c = seq!['}'];
    assert(open_c.drop_last() =~= Seq::<char>::empty());
    assert(close_c.drop_last() =~= Seq::<char>::empty());
    assert(opens(Seq::<char>::empty()) == 0 && closes(Seq::<char>::empty()) == 0);
    assert(open_c.len() == 1 && open_c.last() == '{');
    assert(close_c.len() == 1 && close_c.last() == '}');
    assert(opens(open_c) == 1 && closes(open_c) == 0);
    assert(opens(close_c) == 0 && closes(close_c) == 1);
    lemma_count_add(open_c, b);
    lemma_count_add(open_c + b, close_c);
    let s = open_c + b + close_c;
    assert forall|i: int| 0 <= i <= s.len() implies opens(#[trigger] s.take(i)) >= closes(
        s.take(i),
    ) by {
        if i == 0 {
            assert(s.take(i) =~= Seq::<char>::empty());
        } else if i <= 1 + b.len() {
            let j = i - 1;
            assert(s.take(i) =~= open_c + b.take(j));
            lemma_count_add(open_c, b.take(j));
            assert(opens(b.take(j)) >= closes(b.take(j)));
        } else {
            assert(s.take(i) =~= s);
        }
    }
}

pub proof fn lemma_ascii_concat(a: Seq<char>, b: Seq<char>)
    requires
        is_ascii_chars(a),
        is_ascii_chars(b),
    ensures
        is_ascii_chars(a + b),
{
    assert forall|i: int| 0 <= i < (a + b).len() implies '\0' <= #[trigger] (a + b)[i]
        <= '\u{7f}' by {
        if i < a.len() {
            assert((a + b)[i] == a[i]);
        } else {
            assert((a + b)[i] == b[i - a.len()]);
        }
    }
}

/// A stream is its prefix followed by what was appended after it.
pub proof fn lemma_prefix_seg(a: Seq<char>, b: Seq<char>)
    requires
        a.is_prefix_of(b),
    ensures
        b =~= a + b.skip(a.len() as int),
{
}

/// Splitting one extension of a stream at an intermediate point: the
/// characters appended over the whole step are those of the first part
/// followed by those of the second.
pub proof fn lemma_seg_chain(a: Seq<char>, b: Seq<char>, c: Seq<char>)
    requires
        a.is_prefix_of(b),
        b.is_prefix_of(c),
    ensures
        a.is_prefix_of(c),
        c.skip(a.len() as int) =~= b.skip(a.len() as int) + c.skip(b.len() as int),
{
    assert(c.skip(a.len() as int) =~= b.skip(a.len() as int) + c.skip(b.len() as int)) by {
        assert forall|i: int|
            0 <= i < c.len() - a.len() implies c.skip(a.len() as int)[i] == (b.skip(
            a.len() as int,
        ) + c.skip(b.len() as int))[i] by {
            if i < b.len() - a.len() {
                assert(b[a.len() + i] == c.subrange(0, b.len() as int)[a.len() + i]);
            }
        }
    }
}

} // verus!
