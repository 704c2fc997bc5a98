//! The seeded random source and the leaf-level samplers.
//!
//! Every random decision of the generator is drawn from one ChaCha8
//! stream.  That stream is a pure function of the 64-bit seed: the
//! generator's state is exactly a position in it (`rand_chacha`
//! documents the stream as a seekable sequence of 32-bit words).  Each
//! drawing operation below therefore pins its result, and the position
//! it leaves the stream at, as an uninterpreted function of the
//! operation's arguments, the seed and the position — which is what
//! makes a whole generation run reproducible from seed and
//! configuration alone.
//!
//! Character-class terminals are sampled through `rand_regex`, which
//! draws a random string matching a concrete pattern; each sampler below
//! carries its pattern in its body and states the character-class facts
//! that the pattern guarantees.

use vstd::prelude::*;
use vstd::utf8::is_ascii_chars;

use rand::Rng as _;
use rand::RngExt as _;
use rand::SeedableRng as _;

use crate::text::{bin_digit, dec_digit, hex_digit, ident_char_ok, newline_char, oct_digit,
    word_char};

verus! {

#[verifier::external_type_specification]
#[verifier::external_body]
pub struct ExChaCha8Rng(rand_chacha::ChaCha8Rng);

/// The 32-bit word of the ChaCha8 stream for `seed` at word position
/// `pos`.
pub uninterp spec fn chacha_word(seed: u64, pos: u128) -> u32;

/// Value drawn by a uniform range draw, and the stream position it
/// leaves behind.
pub uninterp spec fn range_draw(lo: u32, hi: u32, seed: u64, pos: u128) -> (u32, u128);

/// Identifier-class character sample and the position it leaves behind.
pub uninterp spec fn ident_char_draw(ascii: bool, seed: u64, pos: u128) -> (Seq<char>, u128);

/// Identifier-class-without-digits sample and next position.
pub uninterp spec fn ident_char_no_digit_draw(ascii: bool, seed: u64, pos: u128) -> (Seq<char>, u128);

/// Leading-identifier-character sample and next position.
pub uninterp spec fn ident_char_first_draw(ascii: bool, seed: u64, pos: u128) -> (Seq<char>, u128);

/// Escaped-string character sample and next position.
pub uninterp spec fn string_char_draw(ascii: bool, seed: u64, pos: u128) -> (Seq<char>, u128);

/// Raw-string body sample and next position.
pub uninterp spec fn raw_quotes_body_draw(ascii: bool, rep: u32, seed: u64, pos: u128) -> (
    Seq<char>,
    u128,
);

/// Decimal digit-run sample and next position.
pub uninterp spec fn decimal_digits_draw(rep: u32, seed: u64, pos: u128) -> (Seq<char>, u128);

/// Hexadecimal digit-run sample and next position.
pub uninterp spec fn hex_digits_draw(rep: u32, seed: u64, pos: u128) -> (Seq<char>, u128);

/// Octal digit-run sample and next position.
pub uninterp spec fn octal_digits_draw(rep: u32, seed: u64, pos: u128) -> (Seq<char>, u128);

/// Binary digit-run sample and next position.
pub uninterp spec fn binary_digits_draw(rep: u32, seed: u64, pos: u128) -> (Seq<char>, u128);

/// Single-line-comment text sample and next position.
pub uninterp spec fn comment_text_draw(ascii: bool, rep: u32, seed: u64, pos: u128) -> (
    Seq<char>,
    u128,
);

/// Star-chunk sample for multi-line comment bodies and next position.
pub uninterp spec fn block_star_draw(ascii: bool, seed: u64, pos: u128) -> (Seq<char>, u128);

/// Slash-chunk sample for multi-line comment bodies and next position.
pub uninterp spec fn block_slash_draw(ascii: bool, seed: u64, pos: u128) -> (Seq<char>, u128);

/// Plain-chunk sample for multi-line comment bodies and next position.
pub uninterp spec fn block_text_draw(ascii: bool, rep: u32, seed: u64, pos: u128) -> (
    Seq<char>,
    u128,
);

/// A deterministic random source: a ChaCha8 stream together with the
/// seed it was built from and the current word position in it, read
/// back from the stream after every draw.
pub struct Rand {
    rng: rand_chacha::ChaCha8Rng,
    seed_val: u64,
    pos_val: u128,
}

impl Rand {
    /// The seed this stream was created from.
    pub closed spec fn seed(self) -> u64 {
        self.seed_val
    }

    /// The current word position in the stream.
    pub closed spec fn pos(self) -> u128 {
        self.pos_val
    }

    /// Relies on `rand_chacha::ChaCha8Rng::seed_from_u64`: a fixed seed
    /// yields one fixed stream, positioned at its start.
    #[verifier::external_body]
    pub fn from_seed(seed: u64) -> (r: Rand)
        ensures
            r.seed() == seed,
            r.pos() == 0,
    {
        Rand { rng: rand_chacha::ChaCha8Rng::seed_from_u64(seed), seed_val: seed, pos_val: 0 }
    }

    /// Relies on `Rng::next_u32` for `ChaCha8Rng`: returns the stream
    /// word at the current position and advances by one word.
    #[verifier::external_body]
    pub fn next_word(&mut self) -> (r: u32)
        ensures
            r == chacha_word(old(self).seed(), old(self).pos()),
            final(self).seed() == old(self).seed(),
            final(self).pos() == old(self).pos() + 1,
    {
        let r = self.rng.next_u32();
        self.pos_val = self.rng.get_word_pos();
        r
    }

    /// Relies on `RngExt::random_range` over `lo..=hi`: a value within
    /// the bounds, drawn from the stream alone, so value and consumed
    /// words are a function of the bounds, the seed and the position.
    /// The range is non-empty, so the call cannot panic.
    #[verifier::external_body]
    pub fn range(&mut self, lo: u32, hi: u32) -> (r: u32)
        requires
            lo <= hi,
        ensures
            lo <= r <= hi,
            r == range_draw(lo, hi, old(self).seed(), old(self).pos()).0,
            final(self).seed() == old(self).seed(),
            final(self).pos() == range_draw(lo, hi, old(self).seed(), old(self).pos()).1,
    {
        let r = self.rng.random_range(lo..=hi);
        self.pos_val = self.rng.get_word_pos();
        r
    }

    /// Relies on `rand_regex::Regex::compile` + `RngExt::sample` on the
    /// pattern `[-+0-9A-Za-km-tv-z]` (ASCII) or on the negated class
    /// excluding `u`, `l`, `\/(){}<>;[]=,"`, whitespace, line breaks and
    /// the byte-order mark (full): one character of the identifier
    /// class.
    #[verifier::external_body]
    pub fn ident_char(&mut self, ascii: bool) -> (r: String)
        ensures
            ({
                let d = ident_char_draw(ascii, old(self).seed(), old(self).pos());
                r@ == d.0 && final(self).pos() == d.1
            }),
            final(self).seed() == old(self).seed(),
            r@.len() == 1,
            ident_char_ok(r@[0]),
            ascii ==> is_ascii_chars(r@),
    {
        let pat = if ascii {
            "[-+0-9A-Za-km-tv-z]"
        } else {
            "[^ul\\\\/(){}<>;\\[\\]=,\"\u{000D}\u{000A}\u{000C}\u{0085}\u{2028}\u{2029}\u{0009}\u{0020}\u{00A0}\u{1680}\u{2000}\u{2001}\u{2002}\u{2003}\u{2004}\u{2005}\u{2006}\u{2007}\u{2008}\u{2009}\u{200A}\u{202F}\u{205F}\u{3000}\u{FEFF}]"
        };
        let re = rand_regex::Regex::compile(pat, 1).unwrap();
        let r = self.rng.sample::<String, _>(re);
        self.pos_val = self.rng.get_word_pos();
        r
    }

    /// Relies on `rand_regex::Regex::compile` + `RngExt::sample` on the
    /// pattern `[-+A-Za-km-tv-z]` (ASCII) or the same negated class as
    /// `ident_char` with digits excluded too (full).
    #[verifier::external_body]
    pub fn ident_char_no_digit(&mut self, ascii: bool) -> (r: String)
        ensures
            ({
                let d = ident_char_no_digit_draw(ascii, old(self).seed(), old(self).pos());
                r@ == d.0 && final(self).pos() == d.1
            }),
            final(self).seed() == old(self).seed(),
            r@.len() == 1,
            ident_char_ok(r@[0]),
            !dec_digit(r@[0]),
            ascii ==> is_ascii_chars(r@),
    {
        let pat = if ascii {
            "[-+A-Za-km-tv-z]"
        } else {
            "[^ul0-9\\\\/(){}<>;\\[\\]=,\"\u{000D}\u{000A}\u{000C}\u{0085}\u{2028}\u{2029}\u{0009}\u{0020}\u{00A0}\u{1680}\u{2000}\u{2001}\u{2002}\u{2003}\u{2004}\u{2005}\u{2006}\u{2007}\u{2008}\u{2009}\u{200A}\u{202F}\u{205F}\u{3000}\u{FEFF}]"
        };
        let re = rand_regex::Regex::compile(pat, 1).unwrap();
        let r = self.rng.sample::<String, _>(re);
        self.pos_val = self.rng.get_word_pos();
        r
    }

    /// Relies on `rand_regex::Regex::compile` + `RngExt::sample` on the
    /// pattern `[A-Za-km-tv-z]` (ASCII) or the same negated class as
    /// `ident_char` with digits and signs excluded too (full): a
    /// character that may open a bare identifier.
    #[verifier::external_body]
    pub fn ident_char_first(&mut self, ascii: bool) -> (r: String)
        ensures
            ({
                let d = ident_char_first_draw(ascii, old(self).seed(), old(self).pos());
                r@ == d.0 && final(self).pos() == d.1
            }),
            final(self).seed() == old(self).seed(),
            r@.len() == 1,
            ident_char_ok(r@[0]),
            !dec_digit(r@[0]),
            r@[0] != '-' && r@[0] != '+',
            ascii ==> is_ascii_chars(r@),
    {
        let pat = if ascii {
            "[A-Za-km-tv-z]"
        } else {
            "[^-+ul0-9\\\\/(){}<>;\\[\\]=,\"\u{000D}\u{000A}\u{000C}\u{0085}\u{2028}\u{2029}\u{0009}\u{0020}\u{00A0}\u{1680}\u{2000}\u{2001}\u{2002}\u{2003}\u{2004}\u{2005}\u{2006}\u{2007}\u{2008}\u{2009}\u{200A}\u{202F}\u{205F}\u{3000}\u{FEFF}]"
        };
        let re = rand_regex::Regex::compile(pat, 1).unwrap();
        let r = self.rng.sample::<String, _>(re);
        self.pos_val = self.rng.get_word_pos();
        r
    }

    /// Relies on `rand_regex::Regex::compile` + `RngExt::sample` on the
    /// pattern `[a-zA-Z0-9 .,;!@#$%^&*()]` (ASCII) or `[^\\"]` (full):
    /// one unescaped string character, never a quote or a backslash.
    #[verifier::external_body]
    pub fn string_char(&mut self, ascii: bool) -> (r: String)
        ensures
            ({
                let d = string_char_draw(ascii, old(self).seed(), old(self).pos());
                r@ == d.0 && final(self).pos() == d.1
            }),
            final(self).seed() == old(self).seed(),
            r@.len() == 1,
            r@[0] != '"' && r@[0] != '\\',
            ascii ==> is_ascii_chars(r@) && r@[0] != '{' && r@[0] != '}',
    {
        let pat = if ascii {
            "[a-zA-Z0-9 .,;!@\\#\\$%\\^&*()]"
        } else {
            "[^\\\\\"]"
        };
        let re = rand_regex::Regex::compile(pat, 1).unwrap();
        let r = self.rng.sample::<String, _>(re);
        self.pos_val = self.rng.get_word_pos();
        r
    }

    /// Relies on `rand_regex::Regex::compile` + `RngExt::sample` on the
    /// pattern `[0-9A-Za-z_]*` (ASCII) or `[^\n"]*` (full) with maximum
    /// repetition `rep`: a raw-string body of at most `rep` characters,
    /// empty when `rep` is zero, and never holding a quote, so the body
    /// cannot terminate the surrounding raw string early at any fence
    /// depth.
    #[verifier::external_body]
    pub fn raw_quotes_body(&mut self, ascii: bool, rep: u32) -> (r: String)
        ensures
            ({
                let d = raw_quotes_body_draw(ascii, rep, old(self).seed(), old(self).pos());
                r@ == d.0 && final(self).pos() == d.1
            }),
            final(self).seed() == old(self).seed(),
            r@.len() <= rep,
            forall|i: int| 0 <= i < r@.len() ==> #[trigger] r@[i] != '"',
            ascii ==> is_ascii_chars(r@) && forall|i: int|
                0 <= i < r@.len() ==> word_char(#[trigger] r@[i]),
    {
        let pat = if ascii {
            "[0-9A-Za-z_]*"
        } else {
            "[^\u{000A}\"]*"
        };
        let re = rand_regex::Regex::compile(pat, rep).unwrap();
        let r = self.rng.sample::<String, _>(re);
        self.pos_val = self.rng.get_word_pos();
        r
    }

    /// Relies on `rand_regex::Regex::compile` + `RngExt::sample` on the
    /// pattern `[0-9][0-9_]*` with maximum repetition `rep`: a decimal
    /// digit run with underscores, opening with a digit.
    #[verifier::external_body]
    pub fn decimal_digits(&mut self, rep: u32) -> (r: String)
        ensures
            ({
                let d = decimal_digits_draw(rep, old(self).seed(), old(self).pos());
                r@ == d.0 && final(self).pos() == d.1
            }),
            final(self).seed() == old(self).seed(),
            1 <= r@.len() <= 1 + rep,
            dec_digit(r@[0]),
            forall|i: int| 0 <= i < r@.len() ==> dec_digit(#[trigger] r@[i]) || r@[i] == '_',
            is_ascii_chars(r@),
    {
        let re = rand_regex::Regex::compile("[0-9][0-9_]*", rep).unwrap();
        let r = self.rng.sample::<String, _>(re);
        self.pos_val = self.rng.get_word_pos();
        r
    }

    /// Relies on `rand_regex::Regex::compile` + `RngExt::sample` on the
    /// pattern `[0-9A-Fa-f][0-9A-Fa-f_]*` with maximum repetition `rep`.
    #[verifier::external_body]
    pub fn hex_digits(&mut self, rep: u32) -> (r: String)
        ensures
            ({
                let d = hex_digits_draw(rep, old(self).seed(), old(self).pos());
                r@ == d.0 && final(self).pos() == d.1
            }),
            final(self).seed() == old(self).seed(),
            1 <= r@.len() <= 1 + rep,
            hex_digit(r@[0]),
            forall|i: int| 0 <= i < r@.len() ==> hex_digit(#[trigger] r@[i]) || r@[i] == '_',
            is_ascii_chars(r@),
    {
        let re = rand_regex::Regex::compile("[0-9A-Fa-f][0-9A-Fa-f_]*", rep).unwrap();
        let r = self.rng.sample::<String, _>(re);
        self.pos_val = self.rng.get_word_pos();
        r
    }

    /// Relies on `rand_regex::Regex::compile` + `RngExt::sample` on the
    /// pattern `[0-7][0-7_]*` with maximum repetition `rep`.
    #[verifier::external_body]
    pub fn octal_digits(&mut self, rep: u32) -> (r: String)
        ensures
            ({
                let d = octal_digits_draw(rep, old(self).seed(), old(self).pos());
                r@ == d.0 && final(self).pos() == d.1
            }),
            final(self).seed() == old(self).seed(),
            1 <= r@.len() <= 1 + rep,
            oct_digit(r@[0]),
            forall|i: int| 0 <= i < r@.len() ==> oct_digit(#[trigger] r@[i]) || r@[i] == '_',
            is_ascii_chars(r@),
    {
        let re = rand_regex::Regex::compile("[0-7][0-7_]*", rep).unwrap();
        let r = self.rng.sample::<String, _>(re);
        self.pos_val = self.rng.get_word_pos();
        r
    }

    /// Relies on `rand_regex::Regex::compile` + `RngExt::sample` on the
    /// pattern `[01][01_]*` with maximum repetition `rep`.
    #[verifier::external_body]
    pub fn binary_digits(&mut self, rep: u32) -> (r: String)
        ensures
            ({
                let d = binary_digits_draw(rep, old(self).seed(), old(self).pos());
                r@ == d.0 && final(self).pos() == d.1
            }),
            final(self).seed() == old(self).seed(),
            1 <= r@.len() <= 1 + rep,
            bin_digit(r@[0]),
            forall|i: int| 0 <= i < r@.len() ==> bin_digit(#[trigger] r@[i]) || r@[i] == '_',
            is_ascii_chars(r@),
    {
        let re = rand_regex::Regex::compile("[01][01_]*", rep).unwrap();
        let r = self.rng.sample::<String, _>(re);
        self.pos_val = self.rng.get_word_pos();
        r
    }

    /// Relies on `rand_regex::Regex::compile` + `RngExt::sample` on the
    /// pattern `[0-9A-Za-z_]+` (ASCII) or `[^\r\n\f\x85\u2028\u2029]+`
    /// (full) with maximum repetition `rep`: between one and `1 + rep`
    /// characters of comment text without line breaks.  The compiler
    /// adds `rep` to the pattern's lower repeat count of one, so `rep`
    /// must leave room for that sum in a `u32`.
    #[verifier::external_body]
    pub fn comment_text(&mut self, ascii: bool, rep: u32) -> (r: String)
        requires
            rep < u32::MAX,
        ensures
            ({
                let d = comment_text_draw(ascii, rep, old(self).seed(), old(self).pos());
                r@ == d.0 && final(self).pos() == d.1
            }),
            final(self).seed() == old(self).seed(),
            1 <= r@.len() <= 1 + rep,
            forall|i: int| 0 <= i < r@.len() ==> !newline_char(#[trigger] r@[i]),
            ascii ==> is_ascii_chars(r@) && forall|i: int|
                0 <= i < r@.len() ==> word_char(#[trigger] r@[i]),
    {
        let pat = if ascii {
            "[0-9A-Za-z_]+"
        } else {
            "[^\u{000D}\u{000A}\u{000C}\u{0085}\u{2028}\u{2029}]+"
        };
        let re = rand_regex::Regex::compile(pat, rep).unwrap();
        let r = self.rng.sample::<String, _>(re);
        self.pos_val = self.rng.get_word_pos();
        r
    }

    /// Relies on `rand_regex::Regex::compile` + `RngExt::sample` on the
    /// pattern `\*[0-9A-Za-z_]` (ASCII) or `\*[^/*]` (full): a star
    /// followed by a character that is neither a slash nor another
    /// star, so the chunk can close no comment and no seam with a
    /// following chunk can form a `*/`.
    #[verifier::external_body]
    pub fn block_star(&mut self, ascii: bool) -> (r: String)
        ensures
            ({
                let d = block_star_draw(ascii, old(self).seed(), old(self).pos());
                r@ == d.0 && final(self).pos() == d.1
            }),
            final(self).seed() == old(self).seed(),
            r@.len() == 2,
            r@[0] == '*',
            r@[1] != '/' && r@[1] != '*',
            ascii ==> is_ascii_chars(r@) && word_char(r@[1]),
    {
        let pat = if ascii {
            "\\*[0-9A-Za-z_]"
        } else {
            "\\*[^/*]"
        };
        let re = rand_regex::Regex::compile(pat, 1).unwrap();
        let r = self.rng.sample::<String, _>(re);
        self.pos_val = self.rng.get_word_pos();
        r
    }

    /// Relies on `rand_regex::Regex::compile` + `RngExt::sample` on the
    /// pattern `/[0-9A-Za-z_]` (ASCII) or `/[^*/]` (full): a slash
    /// followed by a character that is neither a star nor another
    /// slash, so the chunk can open no comment and no seam with a
    /// following chunk can form a `/*`.
    #[verifier::external_body]
    pub fn block_slash(&mut self, ascii: bool) -> (r: String)
        ensures
            ({
                let d = block_slash_draw(ascii, old(self).seed(), old(self).pos());
                r@ == d.0 && final(self).pos() == d.1
            }),
            final(self).seed() == old(self).seed(),
            r@.len() == 2,
            r@[0] == '/',
            r@[1] != '*' && r@[1] != '/',
            ascii ==> is_ascii_chars(r@) && word_char(r@[1]),
    {
        let pat = if ascii {
            "/[0-9A-Za-z_]"
        } else {
            "/[^*/]"
        };
        let re = rand_regex::Regex::compile(pat, 1).unwrap();
        let r = self.rng.sample::<String, _>(re);
        self.pos_val = self.rng.get_word_pos();
        r
    }

    /// Relies on `rand_regex::Regex::compile` + `RngExt::sample` on the
    /// pattern `[0-9A-Za-z_]+` (ASCII) or `[^*/]+` (full) with maximum
    /// repetition `rep`: between one and `1 + rep` characters of
    /// comment body text free of stars and slashes.  The compiler adds
    /// `rep` to the pattern's lower repeat count of one, so `rep` must
    /// leave room for that sum in a `u32`.
    #[verifier::external_body]
    pub fn block_text(&mut self, ascii: bool, rep: u32) -> (r: String)
        requires
            rep < u32::MAX,
        ensures
            ({
                let d = block_text_draw(ascii, rep, old(self).seed(), old(self).pos());
                r@ == d.0 && final(self).pos() == d.1
            }),
            final(self).seed() == old(self).seed(),
            1 <= r@.len() <= 1 + rep,
            forall|i: int| 0 <= i < r@.len() ==> r@[i] != '*' && #[trigger] r@[i] != '/',
            ascii ==> is_ascii_chars(r@) && forall|i: int|
                0 <= i < r@.len() ==> word_char(#[trigger] r@[i]),
    {
        let pat = if ascii {
            "[0-9A-Za-z_]+"
        } else {
            "[^*/]+"
        };
        let re = rand_regex::Regex::compile(pat, rep).unwrap();
        let r = self.rng.sample::<String, _>(re);
        self.pos_val = self.rng.get_word_pos();
        r
    }
}

} // verus!
