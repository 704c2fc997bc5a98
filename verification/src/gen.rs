//! The grammar-traversal engine.
//!
//! One production per grammar symbol, each written against a shared
//! generation context.  Every production appends the text of its symbol
//! to the context's output stream and guarantees the same step contract:
//! configuration and seed are untouched, the stream only grows, and in
//! ASCII mode the appended characters are ASCII and keep the child-block
//! braces balanced.
//!
//! Beside the step contract, every production is pinned to a `model_*`
//! specification function: a pure function of the configuration, the
//! seed and the stream position that gives exactly the characters the
//! production appends and the position it leaves.  The models compose
//! up to `model_document`, which makes reproducibility a theorem: the
//! emitted document is a function of configuration and seed alone.

use vstd::prelude::*;
use vstd::string::StringExecFns;
use vstd::utf8::is_ascii_chars;

use crate::Configuration;
use crate::rng::{binary_digits_draw, block_slash_draw, block_star_draw, block_text_draw,
    chacha_word, comment_text_draw, decimal_digits_draw, hex_digits_draw, ident_char_draw,
    ident_char_first_draw, ident_char_no_digit_draw, octal_digits_draw, range_draw,
    raw_quotes_body_draw, string_char_draw, Rand};
use crate::text::{brace_free, braces_balanced, dec_digit, hex_digit, ident_char_ok,
    lemma_ascii_concat, lemma_balanced_concat, lemma_balanced_empty, lemma_balanced_wrap,
    lemma_brace_free_balanced, lemma_no_ul_not_keyword, lemma_prefix_seg, lemma_seg_chain,
    plain};

verus! {

/// The run-scoped bundle of configuration, output stream, random source
/// and nesting depth, threaded by exclusive reference through every
/// production.
struct Context {
    conf: Configuration,
    out: String,
    rng: Rand,
    depth: u64,
}

/// The characters one step appended to the stream.
spec fn seg(pre: Seq<char>, post: Seq<char>) -> Seq<char> {
    post.skip(pre.len() as int)
}

/// What every production guarantees of its step: configuration and seed
/// are untouched, the output only grows, and in ASCII mode the appended
/// characters are ASCII with balanced braces.
spec fn step_ok(pre: Context, post: Context) -> bool {
    &&& post.conf == pre.conf
    &&& post.rng.seed() == pre.rng.seed()
    &&& pre.out@.is_prefix_of(post.out@)
    &&& (pre.conf.ascii_only ==> is_ascii_chars(seg(pre.out@, post.out@)) && braces_balanced(
        seg(pre.out@, post.out@),
    ))
}

proof fn lemma_step_same_out(a: Context, b: Context)
    requires
        b.conf == a.conf,
        b.rng.seed() == a.rng.seed(),
        b.out == a.out,
    ensures
        step_ok(a, b),
{
    assert(a.out@.is_prefix_of(b.out@)) by {
        assert(a.out@ =~= b.out@.subrange(0, a.out@.len() as int));
    }
    assert(seg(a.out@, b.out@) =~= Seq::<char>::empty());
    lemma_balanced_empty();
}

proof fn lemma_step_append(a: Context, b: Context, s: Seq<char>)
    requires
        b.conf == a.conf,
        b.rng.seed() == a.rng.seed(),
        b.out@ == a.out@ + s,
        a.conf.ascii_only ==> is_ascii_chars(s) && braces_balanced(s),
    ensures
        step_ok(a, b),
        seg(a.out@, b.out@) == s,
{
    assert(a.out@.is_prefix_of(b.out@)) by {
        assert(a.out@ =~= b.out@.subrange(0, a.out@.len() as int));
    }
    assert(seg(a.out@, b.out@) =~= s);
}

proof fn lemma_step_trans(a: Context, b: Context, c: Context)
    requires
        step_ok(a, b),
        step_ok(b, c),
    ensures
        step_ok(a, c),
{
    lemma_seg_chain(a.out@, b.out@, c.out@);
    if a.conf.ascii_only {
        lemma_ascii_concat(seg(a.out@, b.out@), seg(b.out@, c.out@));
        lemma_balanced_concat(seg(a.out@, b.out@), seg(b.out@, c.out@));
    }
}

/// The optional-element decision and the position it leaves: one
/// stream word, its top 24 bits read as a point of the unit interval
/// and tested against one half.
spec fn model_coin(seed: u64, pos: u128) -> (bool, u128) {
    ((chacha_word(seed, pos) >> 8) > 0x0080_0000, (pos + 1) as u128)
}

/// One step is pinned by a model: it appended exactly the model's
/// characters and left the stream exactly at the model's position.
/// A production with such a contract is reproducible: its whole effect
/// is a function of configuration, seed and starting position.
spec fn pinned(pre: Context, post: Context, m: (Seq<char>, u128)) -> bool {
    post.out@ == pre.out@ + m.0 && post.rng.pos() == m.1
}

proof fn lemma_pinned_seq(
    a: Context,
    b: Context,
    c: Context,
    m1: (Seq<char>, u128),
    m2: (Seq<char>, u128),
)
    requires
        pinned(a, b, m1),
        pinned(b, c, m2),
    ensures
        pinned(a, c, (m1.0 + m2.0, m2.1)),
{
    assert(c.out@ =~= a.out@ + (m1.0 + m2.0));
}

/// Model of the sign production.
spec fn model_sign(seed: u64, pos: u128) -> (Seq<char>, u128) {
    let d = range_draw(0, 1, seed, pos);
    (
        if d.0 == 0 {
            "+"@
        } else {
            "-"@
        },
        d.1,
    )
}

/// Model of the keyword production.
#[verifier::opaque]
spec fn model_keyword(conf: Configuration, seed: u64, pos: u128) -> (Seq<char>, u128) {
    let m1 = if conf.debug {
        "<KEYWORD>"@
    } else {
        Seq::<char>::empty()
    };
    let m2 = if conf.debug {
        "</KEYWORD>"@
    } else {
        Seq::<char>::empty()
    };
    let d = range_draw(0, 2, seed, pos);
    let body = if d.0 == 0 {
        "true"@
    } else if d.0 == 1 {
        "false"@
    } else {
        "null"@
    };
    (m1 + body + m2, d.1)
}

/// `count` successive runs of one modelled production starting at
/// `pos`: the concatenation of their output, and the final position.
spec fn model_rep(
    f: spec_fn(Configuration, u64, u128) -> (Seq<char>, u128),
    conf: Configuration,
    seed: u64,
    pos: u128,
    count: int,
) -> (Seq<char>, u128)
    decreases count,
{
    if count <= 0 {
        (Seq::<char>::empty(), pos)
    } else {
        let h = f(conf, seed, pos);
        let r = model_rep(f, conf, seed, h.1, count - 1);
        (h.0 + r.0, r.1)
    }
}

/// Peeling one run off the end of a repetition.
proof fn lemma_model_rep_snoc(
    f: spec_fn(Configuration, u64, u128) -> (Seq<char>, u128),
    conf: Configuration,
    seed: u64,
    pos: u128,
    count: int,
)
    requires
        count >= 0,
    ensures
        ({
            let r = model_rep(f, conf, seed, pos, count);
            let h = f(conf, seed, r.1);
            model_rep(f, conf, seed, pos, count + 1) == (r.0 + h.0, h.1)
        }),
    decreases count,
{
    reveal_with_fuel(model_rep, 3);
    let h0 = f(conf, seed, pos);
    if count == 0 {
        assert(h0.0 + Seq::<char>::empty() =~= h0.0);
        assert(Seq::<char>::empty() + h0.0 =~= h0.0);
    } else {
        lemma_model_rep_snoc(f, conf, seed, h0.1, count - 1);
        let r1 = model_rep(f, conf, seed, h0.1, count - 1);
        let g = f(conf, seed, r1.1);
        assert(h0.0 + (r1.0 + g.0) =~= (h0.0 + r1.0) + g.0);
    }
}

/// Model of the escaped-string production.
#[verifier::opaque]
spec fn model_escaped_string(conf: Configuration, seed: u64, pos: u128) -> (Seq<char>, u128) {
    let n = range_draw(0, conf.string_len_max, seed, pos);
    let b = model_rep(
        |c: Configuration, s: u64, p: u128| model_character(c, s, p),
        conf,
        seed,
        n.1,
        n.0 as int,
    );
    ("\""@ + b.0 + "\""@, b.1)
}

/// Model of the newline production.
#[verifier::opaque]
spec fn model_newline(conf: Configuration, seed: u64, pos: u128) -> (Seq<char>, u128) {
    if conf.ascii_only {
        let d = range_draw(0, 2, seed, pos);
        (
            if d.0 == 0 {
                "\u{000D}"@
            } else if d.0 == 1 {
                "\u{000A}"@
            } else {
                "\u{000D}\u{000A}"@
            },
            d.1,
        )
    } else {
        let d = range_draw(0, 6, seed, pos);
        (
            if d.0 == 0 {
                "\u{000D}"@
            } else if d.0 == 1 {
                "\u{000A}"@
            } else if d.0 == 2 {
                "\u{000D}\u{000A}"@
            } else if d.0 == 3 {
                "\u{0085}"@
            } else if d.0 == 4 {
                "\u{000C}"@
            } else if d.0 == 5 {
                "\u{2028}"@
            } else {
                "\u{2029}"@
            },
            d.1,
        )
    }
}

/// Model of the escape production.
#[verifier::opaque]
spec fn model_escape(seed: u64, pos: u128) -> (Seq<char>, u128) {
    let k = range_draw(0, 1, seed, pos);
    if k.0 == 0 {
        let j = range_draw(0, 7, seed, k.1);
        (
            if j.0 == 0 {
                "\""@
            } else if j.0 == 1 {
                "\\"@
            } else if j.0 == 2 {
                "/"@
            } else if j.0 == 3 {
                "b"@
            } else if j.0 == 4 {
                "f"@
            } else if j.0 == 5 {
                "n"@
            } else if j.0 == 6 {
                "r"@
            } else {
                "t"@
            },
            j.1,
        )
    } else {
        let cp = range_draw(1, 0x0010_FFFF, seed, k.1);
        ("u{"@ + spec_hex(cp.0 as int) + "}"@, cp.1)
    }
}

/// Model of the character production.
#[verifier::opaque]
spec fn model_character(conf: Configuration, seed: u64, pos: u128) -> (Seq<char>, u128) {
    let k = range_draw(0, 1, seed, pos);
    if k.0 == 0 {
        let e = model_escape(seed, k.1);
        ("\\"@ + e.0, e.1)
    } else {
        string_char_draw(conf.ascii_only, seed, k.1)
    }
}

/// Model of the integer production.
#[verifier::opaque]
spec fn model_integer(conf: Configuration, seed: u64, pos: u128) -> (Seq<char>, u128) {
    decimal_digits_draw(conf.num_len_max, seed, pos)
}

/// Model of the exponent production.
#[verifier::opaque]
spec fn model_exponent(conf: Configuration, seed: u64, pos: u128) -> (Seq<char>, u128) {
    let k = range_draw(0, 1, seed, pos);
    let e = if k.0 == 0 {
        "e"@
    } else {
        "E"@
    };
    let c = model_coin(seed, k.1);
    let sp = if c.0 {
        model_sign(seed, c.1)
    } else {
        (Seq::<char>::empty(), c.1)
    };
    let d = model_integer(conf, seed, sp.1);
    (e + sp.0 + d.0, d.1)
}

/// Model of the decimal production.
#[verifier::opaque]
spec fn model_decimal(conf: Configuration, seed: u64, pos: u128) -> (Seq<char>, u128) {
    let c1 = model_coin(seed, pos);
    let s1 = if c1.0 {
        model_sign(seed, c1.1)
    } else {
        (Seq::<char>::empty(), c1.1)
    };
    let i1 = model_integer(conf, seed, s1.1);
    let c2 = model_coin(seed, i1.1);
    let fr = if c2.0 {
        let i2 = model_integer(conf, seed, c2.1);
        ("."@ + i2.0, i2.1)
    } else {
        (Seq::<char>::empty(), c2.1)
    };
    let c3 = model_coin(seed, fr.1);
    let ex = if c3.0 {
        model_exponent(conf, seed, c3.1)
    } else {
        (Seq::<char>::empty(), c3.1)
    };
    (s1.0 + i1.0 + fr.0 + ex.0, ex.1)
}

/// Model of the hex production.
#[verifier::opaque]
spec fn model_hex(conf: Configuration, seed: u64, pos: u128) -> (Seq<char>, u128) {
    let c = model_coin(seed, pos);
    let sp = if c.0 {
        model_sign(seed, c.1)
    } else {
        (Seq::<char>::empty(), c.1)
    };
    let d = hex_digits_draw(conf.num_len_max, seed, sp.1);
    (sp.0 + "0x"@ + d.0, d.1)
}

/// Model of the octal production.
#[verifier::opaque]
spec fn model_octal(conf: Configuration, seed: u64, pos: u128) -> (Seq<char>, u128) {
    let c = model_coin(seed, pos);
    let sp = if c.0 {
        model_sign(seed, c.1)
    } else {
        (Seq::<char>::empty(), c.1)
    };
    let d = octal_digits_draw(conf.num_len_max, seed, sp.1);
    (sp.0 + "0o"@ + d.0, d.1)
}

/// Model of the binary production.
#[verifier::opaque]
spec fn model_binary(conf: Configuration, seed: u64, pos: u128) -> (Seq<char>, u128) {
    let c = model_coin(seed, pos);
    let sp = if c.0 {
        model_sign(seed, c.1)
    } else {
        (Seq::<char>::empty(), c.1)
    };
    let d = binary_digits_draw(conf.num_len_max, seed, sp.1);
    (sp.0 + "0b"@ + d.0, d.1)
}

/// Model of the byte-order-mark production.
#[verifier::opaque]
spec fn model_bom(conf: Configuration, seed: u64, pos: u128) -> (Seq<char>, u128) {
    ("\u{FEFF}"@, pos)
}

/// Model of the unicode-space production.
#[verifier::opaque]
spec fn model_unicode_space(conf: Configuration, seed: u64, pos: u128) -> (Seq<char>, u128) {
    if conf.ascii_only {
        let d = range_draw(0, 1, seed, pos);
        (
            if d.0 == 0 {
                "\u{0009}"@
            } else {
                "\u{0020}"@
            },
            d.1,
        )
    } else {
        let d = range_draw(0, 17, seed, pos);
        (
            if d.0 == 0 {
                "\u{0009}"@
            } else if d.0 == 1 {
                "\u{0020}"@
            } else if d.0 == 2 {
                "\u{00A0}"@
            } else if d.0 == 3 {
                "\u{1680}"@
            } else if d.0 == 4 {
                "\u{2000}"@
            } else if d.0 == 5 {
                "\u{2001}"@
            } else if d.0 == 6 {
                "\u{2002}"@
            } else if d.0 == 7 {
                "\u{2003}"@
            } else if d.0 == 8 {
                "\u{2004}"@
            } else if d.0 == 9 {
                "\u{2005}"@
            } else if d.0 == 10 {
                "\u{2006}"@
            } else if d.0 == 11 {
                "\u{2007}"@
            } else if d.0 == 12 {
                "\u{2008}"@
            } else if d.0 == 13 {
                "\u{2009}"@
            } else if d.0 == 14 {
                "\u{200A}"@
            } else if d.0 == 15 {
                "\u{202F}"@
            } else if d.0 == 16 {
                "\u{205F}"@
            } else {
                "\u{3000}"@
            },
            d.1,
        )
    }
}

/// Model of the commented-block production: one chunk chain, cut off
/// after `left` chunks, with nested comments drawing on `fuel`.
spec fn model_commented_block(conf: Configuration, seed: u64, pos: u128, fuel: int, left: int) -> (
    Seq<char>,
    u128,
)
    decreases fuel, left, 0int,
{
    let k = range_draw(0, 1, seed, pos);
    if k.0 == 0 {
        ("*/"@, k.1)
    } else {
        let j = range_draw(0, 3, seed, k.1);
        let ch = if j.0 == 0 {
            block_star_draw(conf.ascii_only, seed, j.1)
        } else if j.0 == 1 {
            block_slash_draw(conf.ascii_only, seed, j.1)
        } else if j.0 == 2 {
            block_text_draw(conf.ascii_only, conf.comment_len_max, seed, j.1)
        } else {
            if fuel > 0 {
                model_multi_line_comment(conf, seed, j.1, fuel - 1)
            } else {
                block_text_draw(conf.ascii_only, conf.comment_len_max, seed, j.1)
            }
        };
        if left <= 0 {
            (ch.0 + "*/"@, ch.1)
        } else {
            let r = model_commented_block(conf, seed, ch.1, fuel, left - 1);
            (ch.0 + r.0, r.1)
        }
    }
}

/// Model of the multi-line-comment production.
spec fn model_multi_line_comment(conf: Configuration, seed: u64, pos: u128, fuel: int) -> (
    Seq<char>,
    u128,
)
    decreases fuel, conf.nesting_max as int + 1, 1int,
{
    let m1 = if conf.debug {
        "<MULTI-LINE-COMMENT>"@
    } else {
        Seq::<char>::empty()
    };
    let m2 = if conf.debug {
        "</MULTI-LINE-COMMENT>"@
    } else {
        Seq::<char>::empty()
    };
    let b = model_commented_block(conf, seed, pos, fuel, conf.nesting_max as int);
    (m1 + "/*"@ + b.0 + m2, b.1)
}

/// `n` hash characters, the fence on one side of a raw string.
spec fn hash_run(n: int) -> Seq<char> {
    Seq::new(n as nat, (|i: int| '#'))
}

/// A repetition of the constant hash step writes exactly a hash run and
/// leaves the stream where it was.
proof fn lemma_rep_hash_run(conf: Configuration, seed: u64, pos: u128, n: int)
    requires
        n >= 0,
    ensures
        ({
            let fh = |c: Configuration, s: u64, p: u128| ("#"@, p);
            model_rep(fh, conf, seed, pos, n) == (hash_run(n), pos)
        }),
    decreases n,
{
    reveal_strlit("#");
    let fh = |c: Configuration, s: u64, p: u128| ("#"@, p);
    if n <= 0 {
        assert(hash_run(0) =~= Seq::<char>::empty());
    } else {
        lemma_rep_hash_run(conf, seed, pos, n - 1);
        assert(hash_run(n) =~= "#"@ + hash_run(n - 1));
    }
}

/// Model of the raw-string-quotes production.
#[verifier::opaque]
spec fn model_raw_quotes(conf: Configuration, seed: u64, pos: u128) -> (Seq<char>, u128) {
    let b = raw_quotes_body_draw(conf.ascii_only, conf.string_len_max, seed, pos);
    ("\""@ + b.0 + "\""@, b.1)
}

/// Model of the raw-string fence-depth draw: how many hash pairs are
/// opened before the quoted body, and the position left behind.
spec fn model_fence(conf: Configuration, seed: u64, pos: u128, left: int) -> (int, u128)
    decreases left,
{
    if left <= 0 {
        (0, pos)
    } else {
        let k = range_draw(0, 1, seed, pos);
        if k.0 == 1 {
            (0, k.1)
        } else {
            let r = model_fence(conf, seed, k.1, left - 1);
            (r.0 + 1, r.1)
        }
    }
}

/// Model of the raw-string production.
#[verifier::opaque]
spec fn model_raw_string(conf: Configuration, seed: u64, pos: u128) -> (Seq<char>, u128) {
    let fh = |c: Configuration, s: u64, p: u128| ("#"@, p);
    let nf = model_fence(conf, seed, pos, conf.nesting_max as int);
    let h1 = model_rep(fh, conf, seed, nf.1, nf.0);
    let q = model_raw_quotes(conf, seed, h1.1);
    let h2 = model_rep(fh, conf, seed, q.1, nf.0);
    ("r"@ + h1.0 + q.0 + h2.0, h2.1)
}

/// Model of the string production.
#[verifier::opaque]
spec fn model_string_rule(conf: Configuration, seed: u64, pos: u128) -> (Seq<char>, u128) {
    let m1 = if conf.debug {
        "<STRING>"@
    } else {
        Seq::<char>::empty()
    };
    let m2 = if conf.debug {
        "</STRING>"@
    } else {
        Seq::<char>::empty()
    };
    let k = range_draw(0, 1, seed, pos);
    let b = if k.0 == 0 {
        model_raw_string(conf, seed, k.1)
    } else {
        model_escaped_string(conf, seed, k.1)
    };
    (m1 + b.0 + m2, b.1)
}

/// Model of the ws production.
#[verifier::opaque]
spec fn model_ws(conf: Configuration, seed: u64, pos: u128) -> (Seq<char>, u128) {
    let m1 = if conf.debug {
        "<WS>"@
    } else {
        Seq::<char>::empty()
    };
    let m2 = if conf.debug {
        "</WS>"@
    } else {
        Seq::<char>::empty()
    };
    if conf.ascii_only {
        let k = range_draw(0, 1, seed, pos);
        let b = if k.0 == 0 {
            model_unicode_space(conf, seed, k.1)
        } else {
            model_multi_line_comment(conf, seed, k.1, conf.nesting_max as int)
        };
        (m1 + b.0 + m2, b.1)
    } else {
        let k = range_draw(0, 2, seed, pos);
        let b = if k.0 == 0 {
            model_bom(conf, seed, k.1)
        } else if k.0 == 1 {
            model_unicode_space(conf, seed, k.1)
        } else {
            model_multi_line_comment(conf, seed, k.1, conf.nesting_max as int)
        };
        (m1 + b.0 + m2, b.1)
    }
}

/// Model of a run of ws units drawn from `min..=extra_space_max`.
#[verifier::opaque]
spec fn model_ws_reps(conf: Configuration, seed: u64, pos: u128, min: u32) -> (Seq<char>, u128) {
    let n = range_draw(min, conf.extra_space_max, seed, pos);
    model_rep(|c: Configuration, s: u64, p: u128| model_ws(c, s, p), conf, seed, n.1, n.0 as int)
}

/// Model of the escline production.
#[verifier::opaque]
spec fn model_escline(conf: Configuration, seed: u64, pos: u128) -> (Seq<char>, u128) {
    let m1 = if conf.debug {
        "<ESCLINE>"@
    } else {
        Seq::<char>::empty()
    };
    let m2 = if conf.debug {
        "</ESCLINE>"@
    } else {
        Seq::<char>::empty()
    };
    let w = model_ws_reps(conf, seed, pos, 0);
    let k = range_draw(0, 1, seed, w.1);
    let b = if k.0 == 0 {
        model_single_line_comment(conf, seed, k.1)
    } else {
        model_newline(conf, seed, k.1)
    };
    (m1 + "\\"@ + w.0 + b.0 + m2, b.1)
}

/// Model of the linespace production.
#[verifier::opaque]
spec fn model_linespace(conf: Configuration, seed: u64, pos: u128) -> (Seq<char>, u128) {
    let m1 = if conf.debug {
        "<LINESPACE>"@
    } else {
        Seq::<char>::empty()
    };
    let m2 = if conf.debug {
        "</LINESPACE>"@
    } else {
        Seq::<char>::empty()
    };
    let k = range_draw(0, 2, seed, pos);
    let b = if k.0 == 0 {
        model_newline(conf, seed, k.1)
    } else if k.0 == 1 {
        model_ws(conf, seed, k.1)
    } else {
        model_single_line_comment(conf, seed, k.1)
    };
    (m1 + b.0 + m2, b.1)
}

/// Model of the node-space production.
#[verifier::opaque]
spec fn model_node_space(conf: Configuration, seed: u64, pos: u128) -> (Seq<char>, u128) {
    let m1 = if conf.debug {
        "<NODE-SPACE>"@
    } else {
        Seq::<char>::empty()
    };
    let m2 = if conf.debug {
        "</NODE-SPACE>"@
    } else {
        Seq::<char>::empty()
    };
    let k = range_draw(0, 1, seed, pos);
    let b = if k.0 == 0 {
        let w1 = model_ws_reps(conf, seed, k.1, 0);
        let e = model_escline(conf, seed, w1.1);
        let w2 = model_ws_reps(conf, seed, e.1, 0);
        (w1.0 + e.0 + w2.0, w2.1)
    } else {
        model_ws_reps(conf, seed, k.1, 1)
    };
    (m1 + b.0 + m2, b.1)
}

/// Model of a run of node-space units drawn from
/// `min..=extra_space_max`.
#[verifier::opaque]
spec fn model_node_space_reps(conf: Configuration, seed: u64, pos: u128, min: u32) -> (
    Seq<char>,
    u128,
) {
    let n = range_draw(min, conf.extra_space_max, seed, pos);
    model_rep(
        |c: Configuration, s: u64, p: u128| model_node_space(c, s, p),
        conf,
        seed,
        n.1,
        n.0 as int,
    )
}

/// Model of the number production.
#[verifier::opaque]
spec fn model_number(conf: Configuration, seed: u64, pos: u128) -> (Seq<char>, u128) {
    let m1 = if conf.debug {
        "<NUMBER>"@
    } else {
        Seq::<char>::empty()
    };
    let m2 = if conf.debug {
        "</NUMBER>"@
    } else {
        Seq::<char>::empty()
    };
    let k = range_draw(0, 3, seed, pos);
    let body = if k.0 == 0 {
        model_decimal(conf, seed, k.1)
    } else if k.0 == 1 {
        model_hex(conf, seed, k.1)
    } else if k.0 == 2 {
        model_octal(conf, seed, k.1)
    } else {
        model_binary(conf, seed, k.1)
    };
    (m1 + body.0 + m2, body.1)
}

/// Model of the single-line-comment production.
#[verifier::opaque]
spec fn model_single_line_comment(conf: Configuration, seed: u64, pos: u128) -> (Seq<char>, u128) {
    let m1 = if conf.debug {
        "<SINGLE-LINE-COMMENT>"@
    } else {
        Seq::<char>::empty()
    };
    let m2 = if conf.debug {
        "</SINGLE-LINE-COMMENT>"@
    } else {
        Seq::<char>::empty()
    };
    let t = comment_text_draw(conf.ascii_only, conf.comment_len_max, seed, pos);
    let nl = model_newline(conf, seed, t.1);
    (m1 + "//"@ + t.0 + nl.0 + m2, nl.1)
}

/// Model of the node-terminator production.
#[verifier::opaque]
spec fn model_node_terminator(conf: Configuration, seed: u64, pos: u128) -> (Seq<char>, u128) {
    let m1 = if conf.debug {
        "<NODE-TERMINATOR>"@
    } else {
        Seq::<char>::empty()
    };
    let m2 = if conf.debug {
        "</NODE-TERMINATOR>"@
    } else {
        Seq::<char>::empty()
    };
    let k = range_draw(0, 2, seed, pos);
    let body = if k.0 == 0 {
        model_single_line_comment(conf, seed, k.1)
    } else if k.0 == 1 {
        model_newline(conf, seed, k.1)
    } else {
        (";"@, k.1)
    };
    (m1 + body.0 + m2, body.1)
}

/// Model of the bare-identifier production.
#[verifier::opaque]
spec fn model_bare_identifier(conf: Configuration, seed: u64, pos: u128) -> (Seq<char>, u128) {
    let fident = |c: Configuration, s: u64, p: u128| ident_char_draw(c.ascii_only, s, p);
    let m1 = if conf.debug {
        "<BARE-IDENTIFIER>"@
    } else {
        Seq::<char>::empty()
    };
    let m2 = if conf.debug {
        "</BARE-IDENTIFIER>"@
    } else {
        Seq::<char>::empty()
    };
    let k = range_draw(0, 1, seed, pos);
    let b = if k.0 == 0 {
        let f = ident_char_first_draw(conf.ascii_only, seed, k.1);
        let n = range_draw(0, (conf.identifier_len_max - 1) as u32, seed, f.1);
        let t = model_rep(fident, conf, seed, n.1, n.0 as int);
        (f.0 + t.0, t.1)
    } else {
        let sg = model_sign(seed, k.1);
        let c = model_coin(seed, sg.1);
        if c.0 {
            let nd = ident_char_no_digit_draw(conf.ascii_only, seed, c.1);
            let n = range_draw(0, (conf.identifier_len_max - 1) as u32, seed, nd.1);
            let t = model_rep(fident, conf, seed, n.1, n.0 as int);
            (sg.0 + nd.0 + t.0, t.1)
        } else {
            (sg.0, c.1)
        }
    };
    (m1 + b.0 + m2, b.1)
}

/// Model of the identifier production.
#[verifier::opaque]
spec fn model_identifier(conf: Configuration, seed: u64, pos: u128) -> (Seq<char>, u128) {
    let m1 = if conf.debug {
        "<IDENTIFIER>"@
    } else {
        Seq::<char>::empty()
    };
    let m2 = if conf.debug {
        "</IDENTIFIER>"@
    } else {
        Seq::<char>::empty()
    };
    let k = range_draw(0, 1, seed, pos);
    let b = if k.0 == 0 {
        model_string_rule(conf, seed, k.1)
    } else {
        model_bare_identifier(conf, seed, k.1)
    };
    (m1 + b.0 + m2, b.1)
}

/// Model of the type production.
#[verifier::opaque]
spec fn model_type_rule(conf: Configuration, seed: u64, pos: u128) -> (Seq<char>, u128) {
    let m1 = if conf.debug {
        "<TYPE>"@
    } else {
        Seq::<char>::empty()
    };
    let m2 = if conf.debug {
        "</TYPE>"@
    } else {
        Seq::<char>::empty()
    };
    let idt = model_identifier(conf, seed, pos);
    (m1 + "("@ + idt.0 + ")"@ + m2, idt.1)
}

/// Model of the value production.
#[verifier::opaque]
spec fn model_value(conf: Configuration, seed: u64, pos: u128) -> (Seq<char>, u128) {
    let m1 = if conf.debug {
        "<VALUE>"@
    } else {
        Seq::<char>::empty()
    };
    let m2 = if conf.debug {
        "</VALUE>"@
    } else {
        Seq::<char>::empty()
    };
    let c = model_coin(seed, pos);
    let t = if c.0 {
        model_type_rule(conf, seed, c.1)
    } else {
        (Seq::<char>::empty(), c.1)
    };
    let k = range_draw(0, 2, seed, t.1);
    let b = if k.0 == 0 {
        model_string_rule(conf, seed, k.1)
    } else if k.0 == 1 {
        model_number(conf, seed, k.1)
    } else {
        model_keyword(conf, seed, k.1)
    };
    (m1 + t.0 + b.0 + m2, b.1)
}

/// Model of the prop production.
#[verifier::opaque]
spec fn model_prop(conf: Configuration, seed: u64, pos: u128) -> (Seq<char>, u128) {
    let m1 = if conf.debug {
        "<PROP>"@
    } else {
        Seq::<char>::empty()
    };
    let m2 = if conf.debug {
        "</PROP>"@
    } else {
        Seq::<char>::empty()
    };
    let idt = model_identifier(conf, seed, pos);
    let v = model_value(conf, seed, idt.1);
    (m1 + idt.0 + "="@ + v.0 + m2, v.1)
}

/// Model of the node-prop-or-arg production.
#[verifier::opaque]
spec fn model_node_prop_or_arg(conf: Configuration, seed: u64, pos: u128) -> (Seq<char>, u128) {
    let m1 = if conf.debug {
        "<NODE-PROP-OR-ARG>"@
    } else {
        Seq::<char>::empty()
    };
    let m2 = if conf.debug {
        "</NODE-PROP-OR-ARG>"@
    } else {
        Seq::<char>::empty()
    };
    let c = model_coin(seed, pos);
    let d = if c.0 {
        let w = model_node_space_reps(conf, seed, c.1, 0);
        ("/-"@ + w.0, w.1)
    } else {
        (Seq::<char>::empty(), c.1)
    };
    let k = range_draw(0, 1, seed, d.1);
    let b = if k.0 == 0 {
        model_prop(conf, seed, k.1)
    } else {
        model_value(conf, seed, k.1)
    };
    (m1 + d.0 + b.0 + m2, b.1)
}

/// Model of one separated property-or-argument unit inside a node.
#[verifier::opaque]
spec fn model_prop_unit(conf: Configuration, seed: u64, pos: u128) -> (Seq<char>, u128) {
    let w = model_node_space_reps(conf, seed, pos, 1);
    let b = model_node_prop_or_arg(conf, seed, w.1);
    (w.0 + b.0, b.1)
}

/// Model of the node production at nesting depth `depth`.
#[verifier::opaque]
spec fn model_node(conf: Configuration, depth: int, seed: u64, pos: u128) -> (Seq<char>, u128)
    decreases conf.depth_max as int + 2 - depth, 2int, 0int,
{
    let m1 = if conf.debug {
        "<NODE>"@
    } else {
        Seq::<char>::empty()
    };
    let m2 = if conf.debug {
        "</NODE>"@
    } else {
        Seq::<char>::empty()
    };
    let c1 = model_coin(seed, pos);
    let d1 = if c1.0 {
        let w = model_node_space_reps(conf, seed, c1.1, 0);
        ("/-"@ + w.0, w.1)
    } else {
        (Seq::<char>::empty(), c1.1)
    };
    let c2 = model_coin(seed, d1.1);
    let t = if c2.0 {
        model_type_rule(conf, seed, c2.1)
    } else {
        (Seq::<char>::empty(), c2.1)
    };
    let idt = model_identifier(conf, seed, t.1);
    let np = range_draw(0, conf.props_or_args_max, seed, idt.1);
    let pr = model_rep(
        |c: Configuration, s: u64, p: u128| model_prop_unit(c, s, p),
        conf,
        seed,
        np.1,
        np.0 as int,
    );
    let c3 = model_coin(seed, pr.1);
    let ch = if c3.0 {
        let w1 = model_node_space_reps(conf, seed, c3.1, 0);
        let cc = model_node_children(conf, depth, seed, w1.1);
        let w2 = model_ws_reps(conf, seed, cc.1, 0);
        (w1.0 + cc.0 + w2.0, w2.1)
    } else {
        (Seq::<char>::empty(), c3.1)
    };
    let ns = model_node_space_reps(conf, seed, ch.1, 0);
    let tm = model_node_terminator(conf, seed, ns.1);
    (m1 + d1.0 + t.0 + idt.0 + pr.0 + ch.0 + ns.0 + tm.0 + m2, tm.1)
}

/// Model of the node-children production at nesting depth `depth`.
#[verifier::opaque]
spec fn model_node_children(conf: Configuration, depth: int, seed: u64, pos: u128) -> (
    Seq<char>,
    u128,
)
    decreases conf.depth_max as int + 2 - depth, 1int, 0int,
{
    let m1 = if conf.debug {
        "<NODE-CHILDREN>"@
    } else {
        Seq::<char>::empty()
    };
    let m2 = if conf.debug {
        "</NODE-CHILDREN>"@
    } else {
        Seq::<char>::empty()
    };
    let c = model_coin(seed, pos);
    let d = if c.0 {
        let w = model_node_space_reps(conf, seed, c.1, 0);
        ("/-"@ + w.0, w.1)
    } else {
        (Seq::<char>::empty(), c.1)
    };
    let inner = model_nodes(conf, depth, seed, d.1);
    (m1 + d.0 + "{"@ + inner.0 + "}"@ + m2, inner.1)
}

/// Model of a run of `count` sibling nodes at depth `depth`.
spec fn model_node_list(conf: Configuration, depth: int, seed: u64, pos: u128, count: int) -> (
    Seq<char>,
    u128,
)
    decreases conf.depth_max as int + 2 - depth, 3int, count,
{
    if count <= 0 {
        (Seq::<char>::empty(), pos)
    } else {
        let h = model_node(conf, depth, seed, pos);
        let r = model_node_list(conf, depth, seed, h.1, count - 1);
        (h.0 + r.0, r.1)
    }
}

/// Peeling one node off the end of a sibling run.
proof fn lemma_node_list_snoc(conf: Configuration, depth: int, seed: u64, pos: u128, count: int)
    requires
        count >= 0,
    ensures
        ({
            let r = model_node_list(conf, depth, seed, pos, count);
            let h = model_node(conf, depth, seed, r.1);
            model_node_list(conf, depth, seed, pos, count + 1) == (r.0 + h.0, h.1)
        }),
    decreases count,
{
    reveal_with_fuel(model_node_list, 3);
    reveal(model_node);
    reveal(model_nodes);
    reveal(model_node_children);
    let h0 = model_node(conf, depth, seed, pos);
    if count == 0 {
        assert(h0.0 + Seq::<char>::empty() =~= h0.0);
        assert(Seq::<char>::empty() + h0.0 =~= h0.0);
    } else {
        lemma_node_list_snoc(conf, depth, seed, h0.1, count - 1);
        let r1 = model_node_list(conf, depth, seed, h0.1, count - 1);
        let g = model_node(conf, depth, seed, r1.1);
        assert(h0.0 + (r1.0 + g.0) =~= (h0.0 + r1.0) + g.0);
    }
}

/// Model of the node-sequence production at nesting depth `depth`:
/// empty beyond the depth bound, else blank space, sibling nodes one
/// level deeper, and blank space again.
#[verifier::opaque]
spec fn model_nodes(conf: Configuration, depth: int, seed: u64, pos: u128) -> (Seq<char>, u128)
    decreases conf.depth_max as int + 2 - depth, 0int, 0int,
{
    if depth > conf.depth_max as int {
        (Seq::<char>::empty(), pos)
    } else {
        let m1 = if conf.debug {
            "<NODES>"@
        } else {
            Seq::<char>::empty()
        };
        let m2 = if conf.debug {
            "</NODES>"@
        } else {
            Seq::<char>::empty()
        };
        let fl = |c: Configuration, s: u64, p: u128| model_linespace(c, s, p);
        let n1 = range_draw(0, conf.blank_lines_max, seed, pos);
        let l1 = model_rep(fl, conf, seed, n1.1, n1.0 as int);
        let nn = range_draw(0, conf.nodes_per_child_max, seed, l1.1);
        let nd = model_node_list(conf, depth + 1, seed, nn.1, nn.0 as int);
        let n2 = range_draw(0, conf.blank_lines_max, seed, nd.1);
        let l2 = model_rep(fl, conf, seed, n2.1, n2.0 as int);
        (m1 + l1.0 + nd.0 + l2.0 + m2, l2.1)
    }
}

/// The one document that a configuration and a seed determine.  Every
/// run of `document` returns exactly this character sequence: two runs
/// with the same arguments are byte-identical.
pub closed spec fn model_document(conf: Configuration, seed: u64) -> Seq<char> {
    model_nodes(conf, 0, seed, 0).0
}

/// Every character of `s` belongs to the bare-identifier class.
spec fn ident_seg(s: Seq<char>) -> bool {
    forall|i: int| 0 <= i < s.len() ==> ident_char_ok(#[trigger] s[i])
}

proof fn lemma_ident_seg_join(a: Seq<char>, b: Seq<char>, c: Seq<char>)
    requires
        a.is_prefix_of(b),
        b.is_prefix_of(c),
        ident_seg(seg(a, b)),
        ident_seg(seg(b, c)),
    ensures
        ident_seg(seg(a, c)),
{
    lemma_seg_chain(a, b, c);
    assert forall|i: int| 0 <= i < seg(a, c).len() implies ident_char_ok(
        #[trigger] seg(a, c)[i],
    ) by {
        if i < b.len() - a.len() {
            assert(seg(a, c)[i] == seg(a, b)[i]);
        } else {
            assert(seg(a, c)[i] == seg(b, c)[i - (b.len() - a.len())]);
        }
    }
}

/// The lowercase hexadecimal digit for a value below sixteen.
spec fn hex_char_of(d: int) -> char {
    if d == 0 {
        '0'
    } else if d == 1 {
        '1'
    } else if d == 2 {
        '2'
    } else if d == 3 {
        '3'
    } else if d == 4 {
        '4'
    } else if d == 5 {
        '5'
    } else if d == 6 {
        '6'
    } else if d == 7 {
        '7'
    } else if d == 8 {
        '8'
    } else if d == 9 {
        '9'
    } else if d == 10 {
        'a'
    } else if d == 11 {
        'b'
    } else if d == 12 {
        'c'
    } else if d == 13 {
        'd'
    } else if d == 14 {
        'e'
    } else {
        'f'
    }
}

/// The lowercase hexadecimal spelling of `n`, most significant digit
/// first, without leading zeros.
spec fn spec_hex(n: int) -> Seq<char>
    decreases n,
{
    if n < 16 {
        seq![hex_char_of(n)]
    } else {
        spec_hex(n / 16) + seq![hex_char_of(n % 16)]
    }
}

proof fn lemma_spec_hex_plain(n: int)
    requires
        n >= 0,
    ensures
        is_ascii_chars(spec_hex(n)),
        brace_free(spec_hex(n)),
    decreases n,
{
    if n < 16 {
        assert forall|i: int| 0 <= i < spec_hex(n).len() implies '\0' <= #[trigger] spec_hex(n)[i]
            <= '\u{7f}' && spec_hex(n)[i] != '{' && spec_hex(n)[i] != '}' by {
            assert(spec_hex(n)[i] == hex_char_of(n));
        }
    } else {
        lemma_spec_hex_plain(n / 16);
        assert forall|i: int| 0 <= i < spec_hex(n).len() implies spec_hex(n)[i] != '{' && spec_hex(
            n,
        )[i] != '}' by {
            if i < spec_hex(n / 16).len() {
                assert(spec_hex(n)[i] == spec_hex(n / 16)[i]);
            } else {
                assert(spec_hex(n)[i] == hex_char_of(n % 16));
            }
        }
        assert forall|i: int| 0 <= i < (spec_hex(n / 16) + seq![hex_char_of(n % 16)]).len() implies
            '\0' <= #[trigger] (spec_hex(n / 16) + seq![hex_char_of(n % 16)])[i] <= '\u{7f}' by {
            if i < spec_hex(n / 16).len() {
                assert((spec_hex(n / 16) + seq![hex_char_of(n % 16)])[i] == spec_hex(n / 16)[i]);
            } else {
                assert((spec_hex(n / 16) + seq![hex_char_of(n % 16)])[i] == hex_char_of(n % 16));
            }
        }
    }
}

impl Context {
    /// The bounds every production draws from, and the depth range the
    /// node-sequence recursion keeps itself in.
    spec fn wf(self) -> bool {
        self.conf.wf() && self.depth <= self.conf.depth_max as u64 + 1
    }

    /// Append a literal known to be ASCII and brace-free.
    fn wlit(&mut self, s: &str)
        requires
            plain(s@),
        ensures
            step_ok(*old(self), *final(self)),
            final(self).depth == old(self).depth,
            final(self).out@ == old(self).out@ + s@,
            final(self).rng == old(self).rng,
    {
        let ghost g = *self;
        self.out.append(s);
        proof {
            lemma_brace_free_balanced(s@);
            lemma_step_append(g, *self, s@);
        }
    }

    /// Append a literal with no claim about its characters; callers use
    /// it only outside ASCII mode.
    fn wlit_any(&mut self, s: &str)
        requires
            !self.conf.ascii_only,
        ensures
            step_ok(*old(self), *final(self)),
            final(self).depth == old(self).depth,
            final(self).out@ == old(self).out@ + s@,
            final(self).rng == old(self).rng,
    {
        let ghost g = *self;
        self.out.append(s);
        proof {
            lemma_step_append(g, *self, s@);
        }
    }

    /// Append a literal with no step contract at all; callers that emit
    /// a brace use it and argue about balance themselves.
    fn wraw(&mut self, s: &str)
        ensures
            final(self).conf == old(self).conf,
            final(self).rng == old(self).rng,
            final(self).depth == old(self).depth,
            final(self).out@ == old(self).out@ + s@,
    {
        self.out.append(s);
    }

    /// Write `s` when debug tracing is on; every traced production
    /// brackets its output with a pair of such markers.
    fn dbg(&mut self, s: &str)
        requires
            plain(s@),
        ensures
            step_ok(*old(self), *final(self)),
            final(self).depth == old(self).depth,
            final(self).rng == old(self).rng,
            old(self).conf.debug ==> final(self).out@ == old(self).out@ + s@,
            !old(self).conf.debug ==> final(self).out == old(self).out,
    {
        let ghost g = *self;
        if self.conf.debug {
            self.wlit(s);
        } else {
            proof {
                lemma_step_same_out(g, *self);
            }
        }
    }

    /// Draw a repetition count or an alternative index from `lo..=hi`.
    fn crange(&mut self, lo: u32, hi: u32) -> (r: u32)
        requires
            lo <= hi,
        ensures
            step_ok(*old(self), *final(self)),
            final(self).depth == old(self).depth,
            final(self).out == old(self).out,
            lo <= r <= hi,
            r == range_draw(lo, hi, old(self).rng.seed(), old(self).rng.pos()).0,
            final(self).rng.pos() == range_draw(lo, hi, old(self).rng.seed(), old(self).rng.pos()).1,
    {
        let ghost g = *self;
        let r = self.rng.range(lo, hi);
        proof {
            lemma_step_same_out(g, *self);
        }
        r
    }

    /// One optional-element decision: a uniform draw over the unit
    /// interval at 24-bit resolution, taken from one stream word and
    /// tested against one half.
    fn coin(&mut self) -> (r: bool)
        ensures
            step_ok(*old(self), *final(self)),
            final(self).depth == old(self).depth,
            final(self).out == old(self).out,
            r == model_coin(old(self).rng.seed(), old(self).rng.pos()).0,
            final(self).rng.pos() == model_coin(old(self).rng.seed(), old(self).rng.pos()).1,
    {
        let ghost g = *self;
        let w = self.rng.next_word();
        proof {
            lemma_step_same_out(g, *self);
            assert(old(self).rng.pos() + 1 == ((old(self).rng.pos() + 1) as u128));
        }
        (w >> 8u32) > 0x0080_0000
    }

    /// Append one sampled identifier-class character.
    fn put_ident_char(&mut self)
        ensures
            step_ok(*old(self), *final(self)),
            final(self).depth == old(self).depth,
            seg(old(self).out@, final(self).out@).len() == 1,
            ident_char_ok(seg(old(self).out@, final(self).out@)[0]),
            ({
                let d = ident_char_draw(
                    old(self).conf.ascii_only,
                    old(self).rng.seed(),
                    old(self).rng.pos(),
                );
                final(self).out@ == old(self).out@ + d.0 && final(self).rng.pos() == d.1
            }),
    {
        let ghost g = *self;
        let t = self.rng.ident_char(self.conf.ascii_only);
        self.out.append(t.as_str());
        proof {
            assert(brace_free(t@));
            lemma_brace_free_balanced(t@);
            lemma_step_append(g, *self, t@);
        }
    }

    /// Append one sampled identifier-class character that is not a
    /// digit.
    fn put_ident_char_no_digit(&mut self)
        ensures
            step_ok(*old(self), *final(self)),
            final(self).depth == old(self).depth,
            seg(old(self).out@, final(self).out@).len() == 1,
            ident_char_ok(seg(old(self).out@, final(self).out@)[0]),
            ({
                let d = ident_char_no_digit_draw(
                    old(self).conf.ascii_only,
                    old(self).rng.seed(),
                    old(self).rng.pos(),
                );
                final(self).out@ == old(self).out@ + d.0 && final(self).rng.pos() == d.1
            }),
    {
        let ghost g = *self;
        let t = self.rng.ident_char_no_digit(self.conf.ascii_only);
        self.out.append(t.as_str());
        proof {
            assert(brace_free(t@));
            lemma_brace_free_balanced(t@);
            lemma_step_append(g, *self, t@);
        }
    }

    /// Append one sampled character that may open a bare identifier.
    fn put_ident_char_first(&mut self)
        ensures
            step_ok(*old(self), *final(self)),
            final(self).depth == old(self).depth,
            seg(old(self).out@, final(self).out@).len() == 1,
            ident_char_ok(seg(old(self).out@, final(self).out@)[0]),
            ({
                let d = ident_char_first_draw(
                    old(self).conf.ascii_only,
                    old(self).rng.seed(),
                    old(self).rng.pos(),
                );
                final(self).out@ == old(self).out@ + d.0 && final(self).rng.pos() == d.1
            }),
    {
        let ghost g = *self;
        let t = self.rng.ident_char_first(self.conf.ascii_only);
        self.out.append(t.as_str());
        proof {
            assert(brace_free(t@));
            lemma_brace_free_balanced(t@);
            lemma_step_append(g, *self, t@);
        }
    }

    /// Append one sampled unescaped string character.
    fn put_string_char(&mut self)
        ensures
            step_ok(*old(self), *final(self)),
            final(self).depth == old(self).depth,
            ({
                let d = string_char_draw(
                    old(self).conf.ascii_only,
                    old(self).rng.seed(),
                    old(self).rng.pos(),
                );
                final(self).out@ == old(self).out@ + d.0 && final(self).rng.pos() == d.1
            }),
    {
        let ghost g = *self;
        let t = self.rng.string_char(self.conf.ascii_only);
        self.out.append(t.as_str());
        proof {
            if g.conf.ascii_only {
                assert forall|i: int| 0 <= i < t@.len() implies t@[i] != '{' && t@[i] != '}' by {
                    assert(t@[i] == t@[0]);
                }
                lemma_brace_free_balanced(t@);
            }
            lemma_step_append(g, *self, t@);
        }
    }

    /// Append a sampled raw-string body of at most `rep` characters.
    fn put_raw_quotes_body(&mut self, rep: u32)
        ensures
            step_ok(*old(self), *final(self)),
            final(self).depth == old(self).depth,
            seg(old(self).out@, final(self).out@).len() <= rep,
            ({
                let d = raw_quotes_body_draw(
                    old(self).conf.ascii_only,
                    rep,
                    old(self).rng.seed(),
                    old(self).rng.pos(),
                );
                final(self).out@ == old(self).out@ + d.0 && final(self).rng.pos() == d.1
            }),
    {
        let ghost g = *self;
        let t = self.rng.raw_quotes_body(self.conf.ascii_only, rep);
        self.out.append(t.as_str());
        proof {
            if g.conf.ascii_only {
                assert forall|i: int| 0 <= i < t@.len() implies t@[i] != '{' && t@[i] != '}' by {
                    assert(crate::text::word_char(t@[i]));
                }
                lemma_brace_free_balanced(t@);
            }
            lemma_step_append(g, *self, t@);
        }
    }

    /// Append a sampled decimal digit run.
    fn put_decimal_digits(&mut self, rep: u32)
        ensures
            step_ok(*old(self), *final(self)),
            final(self).depth == old(self).depth,
            1 <= seg(old(self).out@, final(self).out@).len(),
            dec_digit(seg(old(self).out@, final(self).out@)[0]),
            forall|i: int|
                0 <= i < seg(old(self).out@, final(self).out@).len() ==> dec_digit(
                    #[trigger] seg(old(self).out@, final(self).out@)[i],
                ) || seg(old(self).out@, final(self).out@)[i] == '_',
            ({
                let d = decimal_digits_draw(rep, old(self).rng.seed(), old(self).rng.pos());
                final(self).out@ == old(self).out@ + d.0 && final(self).rng.pos() == d.1
            }),
    {
        let ghost g = *self;
        let t = self.rng.decimal_digits(rep);
        self.out.append(t.as_str());
        proof {
            assert forall|i: int| 0 <= i < t@.len() implies t@[i] != '{' && t@[i] != '}' by {
                assert(dec_digit(t@[i]) || t@[i] == '_');
            }
            lemma_brace_free_balanced(t@);
            lemma_step_append(g, *self, t@);
        }
    }

    /// Append a sampled hexadecimal digit run.
    fn put_hex_digits(&mut self, rep: u32)
        ensures
            step_ok(*old(self), *final(self)),
            final(self).depth == old(self).depth,
            1 <= seg(old(self).out@, final(self).out@).len(),
            hex_digit(seg(old(self).out@, final(self).out@)[0]),
            ({
                let d = hex_digits_draw(rep, old(self).rng.seed(), old(self).rng.pos());
                final(self).out@ == old(self).out@ + d.0 && final(self).rng.pos() == d.1
            }),
    {
        let ghost g = *self;
        let t = self.rng.hex_digits(rep);
        self.out.append(t.as_str());
        proof {
            assert forall|i: int| 0 <= i < t@.len() implies t@[i] != '{' && t@[i] != '}' by {
                assert(hex_digit(t@[i]) || t@[i] == '_');
            }
            lemma_brace_free_balanced(t@);
            lemma_step_append(g, *self, t@);
        }
    }

    /// Append a sampled octal digit run.
    fn put_octal_digits(&mut self, rep: u32)
        ensures
            step_ok(*old(self), *final(self)),
            final(self).depth == old(self).depth,
            1 <= seg(old(self).out@, final(self).out@).len(),
            ({
                let d = octal_digits_draw(rep, old(self).rng.seed(), old(self).rng.pos());
                final(self).out@ == old(self).out@ + d.0 && final(self).rng.pos() == d.1
            }),
    {
        let ghost g = *self;
        let t = self.rng.octal_digits(rep);
        self.out.append(t.as_str());
        proof {
            assert forall|i: int| 0 <= i < t@.len() implies t@[i] != '{' && t@[i] != '}' by {
                assert(crate::text::oct_digit(t@[i]) || t@[i] == '_');
            }
            lemma_brace_free_balanced(t@);
            lemma_step_append(g, *self, t@);
        }
    }

    /// Append a sampled binary digit run.
    fn put_binary_digits(&mut self, rep: u32)
        ensures
            step_ok(*old(self), *final(self)),
            final(self).depth == old(self).depth,
            1 <= seg(old(self).out@, final(self).out@).len(),
            ({
                let d = binary_digits_draw(rep, old(self).rng.seed(), old(self).rng.pos());
                final(self).out@ == old(self).out@ + d.0 && final(self).rng.pos() == d.1
            }),
    {
        let ghost g = *self;
        let t = self.rng.binary_digits(rep);
        self.out.append(t.as_str());
        proof {
            assert forall|i: int| 0 <= i < t@.len() implies t@[i] != '{' && t@[i] != '}' by {
                assert(crate::text::bin_digit(t@[i]) || t@[i] == '_');
            }
            lemma_brace_free_balanced(t@);
            lemma_step_append(g, *self, t@);
        }
    }

    /// Append sampled single-line-comment text.
    fn put_comment_text(&mut self, rep: u32)
        requires
            rep < u32::MAX,
        ensures
            step_ok(*old(self), *final(self)),
            final(self).depth == old(self).depth,
            ({
                let d = comment_text_draw(
                    old(self).conf.ascii_only,
                    rep,
                    old(self).rng.seed(),
                    old(self).rng.pos(),
                );
                final(self).out@ == old(self).out@ + d.0 && final(self).rng.pos() == d.1
            }),
    {
        let ghost g = *self;
        let t = self.rng.comment_text(self.conf.ascii_only, rep);
        self.out.append(t.as_str());
        proof {
            if g.conf.ascii_only {
                assert forall|i: int| 0 <= i < t@.len() implies t@[i] != '{' && t@[i] != '}' by {
                    assert(crate::text::word_char(t@[i]));
                }
                lemma_brace_free_balanced(t@);
            }
            lemma_step_append(g, *self, t@);
        }
    }

    /// Append one sampled star chunk of a multi-line comment body.
    fn put_block_star(&mut self)
        ensures
            step_ok(*old(self), *final(self)),
            final(self).depth == old(self).depth,
            ({
                let d = block_star_draw(
                    old(self).conf.ascii_only,
                    old(self).rng.seed(),
                    old(self).rng.pos(),
                );
                final(self).out@ == old(self).out@ + d.0 && final(self).rng.pos() == d.1
            }),
    {
        let ghost g = *self;
        let t = self.rng.block_star(self.conf.ascii_only);
        self.out.append(t.as_str());
        proof {
            if g.conf.ascii_only {
                assert forall|i: int| 0 <= i < t@.len() implies t@[i] != '{' && t@[i] != '}' by {
                    if i == 0 {
                        assert(t@[0] == '*');
                    } else {
                        assert(t@[i] == t@[1]);
                        assert(crate::text::word_char(t@[1]));
                    }
                }
                lemma_brace_free_balanced(t@);
            }
            lemma_step_append(g, *self, t@);
        }
    }

    /// Append one sampled slash chunk of a multi-line comment body.
    fn put_block_slash(&mut self)
        ensures
            step_ok(*old(self), *final(self)),
            final(self).depth == old(self).depth,
            ({
                let d = block_slash_draw(
                    old(self).conf.ascii_only,
                    old(self).rng.seed(),
                    old(self).rng.pos(),
                );
                final(self).out@ == old(self).out@ + d.0 && final(self).rng.pos() == d.1
            }),
    {
        let ghost g = *self;
        let t = self.rng.block_slash(self.conf.ascii_only);
        self.out.append(t.as_str());
        proof {
            if g.conf.ascii_only {
                assert forall|i: int| 0 <= i < t@.len() implies t@[i] != '{' && t@[i] != '}' by {
                    if i == 0 {
                        assert(t@[0] == '/');
                    } else {
                        assert(t@[i] == t@[1]);
                        assert(crate::text::word_char(t@[1]));
                    }
                }
                lemma_brace_free_balanced(t@);
            }
            lemma_step_append(g, *self, t@);
        }
    }

    /// Append one sampled plain chunk of a multi-line comment body.
    fn put_block_text(&mut self, rep: u32)
        requires
            rep < u32::MAX,
        ensures
            step_ok(*old(self), *final(self)),
            final(self).depth == old(self).depth,
            ({
                let d = block_text_draw(
                    old(self).conf.ascii_only,
                    rep,
                    old(self).rng.seed(),
                    old(self).rng.pos(),
                );
                final(self).out@ == old(self).out@ + d.0 && final(self).rng.pos() == d.1
            }),
    {
        let ghost g = *self;
        let t = self.rng.block_text(self.conf.ascii_only, rep);
        self.out.append(t.as_str());
        proof {
            if g.conf.ascii_only {
                assert forall|i: int| 0 <= i < t@.len() implies t@[i] != '{' && t@[i] != '}' by {
                    assert(crate::text::word_char(t@[i]));
                }
                lemma_brace_free_balanced(t@);
            }
            lemma_step_append(g, *self, t@);
        }
    }

    // sign := '+' | '-'
    fn sign(&mut self)
        ensures
            step_ok(*old(self), *final(self)),
            final(self).depth == old(self).depth,
            seg(old(self).out@, final(self).out@).len() == 1,
            ident_char_ok(seg(old(self).out@, final(self).out@)[0]),
            pinned(
                *old(self),
                *final(self),
                model_sign(old(self).rng.seed(), old(self).rng.pos()),
            ),
    {
        let ghost g0 = *self;
        let k = self.crange(0, 1);
        let ghost g1 = *self;
        if k == 0 {
            proof {
                reveal_strlit("+");
                assert(plain("+"@));
            }
            self.wlit("+");
        } else {
            proof {
                reveal_strlit("-");
                assert(plain("-"@));
            }
            self.wlit("-");
        }
        proof {
            lemma_step_trans(g0, g1, *self);
            assert(self.out@ =~= g0.out@ + model_sign(g0.rng.seed(), g0.rng.pos()).0);
        }
    }

    // keyword := 'true' | 'false' | 'null'
    fn keyword(&mut self)
        ensures
            step_ok(*old(self), *final(self)),
            final(self).depth == old(self).depth,
            pinned(
                *old(self),
                *final(self),
                model_keyword(old(self).conf, old(self).rng.seed(), old(self).rng.pos()),
            ),
    {
        let ghost g0 = *self;
        proof {
            reveal_strlit("<KEYWORD>");
            assert(plain("<KEYWORD>"@));
        }
        self.dbg("<KEYWORD>");
        let ghost g1 = *self;
        let k = self.crange(0, 2);
        let ghost g2 = *self;
        if k == 0 {
            proof {
                reveal_strlit("true");
                assert(plain("true"@));
            }
            self.wlit("true");
        } else if k == 1 {
            proof {
                reveal_strlit("false");
                assert(plain("false"@));
            }
            self.wlit("false");
        } else {
            proof {
                reveal_strlit("null");
                assert(plain("null"@));
            }
            self.wlit("null");
        }
        let ghost g3 = *self;
        proof {
            reveal_strlit("</KEYWORD>");
            assert(plain("</KEYWORD>"@));
        }
        self.dbg("</KEYWORD>");
        proof {
            lemma_step_trans(g0, g1, g2);
            lemma_step_trans(g0, g2, g3);
            lemma_step_trans(g0, g3, *self);
            reveal(model_keyword);
            assert(self.out@ =~= g0.out@ + model_keyword(
                g0.conf,
                g0.rng.seed(),
                g0.rng.pos(),
            ).0);
        }
    }

    /// Append the lowercase hexadecimal digit for `d`.
    fn push_hex_digit(&mut self, d: u32)
        requires
            d < 16,
        ensures
            step_ok(*old(self), *final(self)),
            final(self).depth == old(self).depth,
            final(self).rng == old(self).rng,
            final(self).out@ == old(self).out@ + spec_hex(d as int),
    {
        if d == 0 {
            proof {
                reveal_strlit("0");
                assert(plain("0"@));
            }
            self.wlit("0");
            proof {
                assert("0"@ =~= spec_hex(0));
            }
        } else if d == 1 {
            proof {
                reveal_strlit("1");
                assert(plain("1"@));
            }
            self.wlit("1");
            proof {
                assert("1"@ =~= spec_hex(1));
            }
        } else if d == 2 {
            proof {
                reveal_strlit("2");
                assert(plain("2"@));
            }
            self.wlit("2");
            proof {
                assert("2"@ =~= spec_hex(2));
            }
        } else if d == 3 {
            proof {
                reveal_strlit("3");
                assert(plain("3"@));
            }
            self.wlit("3");
            proof {
                assert("3"@ =~= spec_hex(3));
            }
        } else if d == 4 {
            proof {
                reveal_strlit("4");
                assert(plain("4"@));
            }
            self.wlit("4");
            proof {
                assert("4"@ =~= spec_hex(4));
            }
        } else if d == 5 {
            proof {
                reveal_strlit("5");
                assert(plain("5"@));
            }
            self.wlit("5");
            proof {
                assert("5"@ =~= spec_hex(5));
            }
        } else if d == 6 {
            proof {
                reveal_strlit("6");
                assert(plain("6"@));
            }
            self.wlit("6");
            proof {
                assert("6"@ =~= spec_hex(6));
            }
        } else if d == 7 {
            proof {
                reveal_strlit("7");
                assert(plain("7"@));
            }
            self.wlit("7");
            proof {
                assert("7"@ =~= spec_hex(7));
            }
        } else if d == 8 {
            proof {
                reveal_strlit("8");
                assert(plain("8"@));
            }
            self.wlit("8");
            proof {
                assert("8"@ =~= spec_hex(8));
            }
        } else if d == 9 {
            proof {
                reveal_strlit("9");
                assert(plain("9"@));
            }
            self.wlit("9");
            proof {
                assert("9"@ =~= spec_hex(9));
            }
        } else if d == 10 {
            proof {
                reveal_strlit("a");
                assert(plain("a"@));
            }
            self.wlit("a");
            proof {
                assert("a"@ =~= spec_hex(10));
            }
        } else if d == 11 {
            proof {
                reveal_strlit("b");
                assert(plain("b"@));
            }
            self.wlit("b");
            proof {
                assert("b"@ =~= spec_hex(11));
            }
        } else if d == 12 {
            proof {
                reveal_strlit("c");
                assert(plain("c"@));
            }
            self.wlit("c");
            proof {
                assert("c"@ =~= spec_hex(12));
            }
        } else if d == 13 {
            proof {
                reveal_strlit("d");
                assert(plain("d"@));
            }
            self.wlit("d");
            proof {
                assert("d"@ =~= spec_hex(13));
            }
        } else if d == 14 {
            proof {
                reveal_strlit("e");
                assert(plain("e"@));
            }
            self.wlit("e");
            proof {
                assert("e"@ =~= spec_hex(14));
            }
        } else {
            proof {
                reveal_strlit("f");
                assert(plain("f"@));
            }
            self.wlit("f");
            proof {
                assert("f"@ =~= spec_hex(d as int));
            }
        }
    }

    /// Append the lowercase hexadecimal spelling of `n`.
    fn push_hex(&mut self, n: u32)
        ensures
            step_ok(*old(self), *final(self)),
            final(self).depth == old(self).depth,
            final(self).rng == old(self).rng,
            final(self).out@ == old(self).out@ + spec_hex(n as int),
        decreases n,
    {
        if n < 16 {
            self.push_hex_digit(n);
        } else {
            let ghost g0 = *self;
            self.push_hex(n / 16);
            let ghost g1 = *self;
            self.push_hex_digit(n % 16);
            proof {
                lemma_step_trans(g0, g1, *self);
                assert((n / 16) as int == n as int / 16);
                assert((n % 16) as int == n as int % 16);
                assert(self.out@ =~= g0.out@ + (spec_hex(n as int / 16) + spec_hex(
                    n as int % 16,
                )));
                assert(spec_hex(n as int % 16) == seq![hex_char_of(n as int % 16)]);
            }
        }
    }

    // escape := '"' | '\' | '/' | 'b' | 'f' | 'n' | 'r' | 't' | 'u{' hex '}'
    fn escape(&mut self)
        ensures
            step_ok(*old(self), *final(self)),
            final(self).depth == old(self).depth,
            pinned(
                *old(self),
                *final(self),
                model_escape(old(self).rng.seed(), old(self).rng.pos()),
            ),
    {
        let ghost g0 = *self;
        let k = self.crange(0, 1);
        let ghost g1 = *self;
        if k == 0 {
            let j = self.crange(0, 7);
            let ghost g2 = *self;
            if j == 0 {
                proof {
                    reveal_strlit("\"");
                    assert(plain("\""@));
                }
                self.wlit("\"");
            } else if j == 1 {
                proof {
                    reveal_strlit("\\");
                    assert(plain("\\"@));
                }
                self.wlit("\\");
            } else if j == 2 {
                proof {
                    reveal_strlit("/");
                    assert(plain("/"@));
                }
                self.wlit("/");
            } else if j == 3 {
                proof {
                    reveal_strlit("b");
                    assert(plain("b"@));
                }
                self.wlit("b");
            } else if j == 4 {
                proof {
                    reveal_strlit("f");
                    assert(plain("f"@));
                }
                self.wlit("f");
            } else if j == 5 {
                proof {
                    reveal_strlit("n");
                    assert(plain("n"@));
                }
                self.wlit("n");
            } else if j == 6 {
                proof {
                    reveal_strlit("r");
                    assert(plain("r"@));
                }
                self.wlit("r");
            } else {
                proof {
                    reveal_strlit("t");
                    assert(plain("t"@));
                }
                self.wlit("t");
            }
            proof {
                lemma_step_trans(g1, g2, *self);
                reveal(model_escape);
            assert(self.out@ =~= g0.out@ + model_escape(g0.rng.seed(), g0.rng.pos()).0);
            }
        } else {
            self.wraw("u{");
            let cp = self.crange(1, 0x0010_FFFF);
            let ghost g3 = *self;
            self.push_hex(cp);
            let ghost g4 = *self;
            self.wraw("}");
            proof {
                reveal_strlit("u{");
                reveal_strlit("}");
                let h = spec_hex(cp as int);
                assert(self.out@ =~= g1.out@ + ("u{"@ + h + "}"@));
                lemma_spec_hex_plain(cp as int);
                lemma_brace_free_balanced(h);
                lemma_balanced_wrap(h);
                assert(brace_free(seq!['u'])) by {
                    assert(seq!['u'][0] == 'u');
                }
                lemma_brace_free_balanced(seq!['u']);
                lemma_balanced_concat(seq!['u'], seq!['{'] + h + seq!['}']);
                assert("u{"@ + h + "}"@ =~= seq!['u'] + (seq!['{'] + h + seq!['}']));
                assert(is_ascii_chars("u{"@)) by {
                    assert("u{"@[0] == 'u' && "u{"@[1] == '{');
                }
                assert(is_ascii_chars("}"@)) by {
                    assert("}"@[0] == '}');
                }
                lemma_ascii_concat("u{"@, h);
                lemma_ascii_concat("u{"@ + h, "}"@);
                lemma_step_append(g1, *self, "u{"@ + h + "}"@);
                reveal(model_escape);
            assert(self.out@ =~= g0.out@ + model_escape(g0.rng.seed(), g0.rng.pos()).0);
            }
        }
        proof {
            lemma_step_trans(g0, g1, *self);
        }
    }

    // character := '\' escape | any unescaped string character
    fn character(&mut self)
        ensures
            step_ok(*old(self), *final(self)),
            final(self).depth == old(self).depth,
            pinned(
                *old(self),
                *final(self),
                model_character(old(self).conf, old(self).rng.seed(), old(self).rng.pos()),
            ),
    {
        let ghost g0 = *self;
        let k = self.crange(0, 1);
        let ghost g1 = *self;
        if k == 0 {
            proof {
                reveal_strlit("\\");
                assert(plain("\\"@));
            }
            self.wlit("\\");
            let ghost g2 = *self;
            self.escape();
            proof {
                lemma_step_trans(g1, g2, *self);
            }
        } else {
            self.put_string_char();
        }
        proof {
            lemma_step_trans(g0, g1, *self);
            reveal(model_character);
            assert(self.out@ =~= g0.out@ + model_character(
                g0.conf,
                g0.rng.seed(),
                g0.rng.pos(),
            ).0);
        }
    }

    // escaped-string := '"' character* '"'
    fn escaped_string(&mut self)
        ensures
            step_ok(*old(self), *final(self)),
            final(self).depth == old(self).depth,
            old(self).conf.string_len_max == 0 ==> seg(old(self).out@, final(self).out@)
                == seq!['"', '"'],
            pinned(
                *old(self),
                *final(self),
                model_escaped_string(old(self).conf, old(self).rng.seed(), old(self).rng.pos()),
            ),
    {
        let ghost fch = |c: Configuration, s: u64, p: u128| model_character(c, s, p);
        let ghost g0 = *self;
        proof {
            reveal_strlit("\"");
            assert(plain("\""@));
        }
        self.wlit("\"");
        let ghost g1 = *self;
        let n = self.crange(0, self.conf.string_len_max);
        let ghost g2 = *self;
        proof {
            assert(g2.out@ + Seq::<char>::empty() =~= g2.out@);
        }
        if n > 0 {
            let mut i: u32 = 0;
            proof {
                lemma_step_same_out(g2, *self);
            }
            while i < n
                invariant
                    step_ok(g2, *self),
                    self.depth == g2.depth,
                    i <= n,
                    pinned(g2, *self, model_rep(fch, g2.conf, g2.rng.seed(), g2.rng.pos(), i as int)),
                decreases n as int - i as int,
            {
                let ghost gl = *self;
                self.character();
                proof {
                    lemma_step_trans(g2, gl, *self);
                    lemma_model_rep_snoc(fch, g2.conf, g2.rng.seed(), g2.rng.pos(), i as int);
                    assert(g2.out@ + (model_rep(fch, g2.conf, g2.rng.seed(), g2.rng.pos(), i as int).0
                        + model_character(gl.conf, gl.rng.seed(), gl.rng.pos()).0) =~= (g2.out@
                        + model_rep(fch, g2.conf, g2.rng.seed(), g2.rng.pos(), i as int).0)
                        + model_character(gl.conf, gl.rng.seed(), gl.rng.pos()).0);
                }
                i = i + 1;
            }
        }
        let ghost g3 = *self;
        self.wlit("\"");
        proof {
            lemma_step_trans(g1, g2, g3);
            lemma_step_trans(g1, g3, *self);
            lemma_step_trans(g0, g1, *self);
            if g0.conf.string_len_max == 0 {
                assert(g3.out == g2.out && g2.out == g1.out);
                assert(seg(g0.out@, self.out@) =~= seq!['"', '"']);
            }
            reveal(model_escaped_string);
            assert(self.out@ =~= g0.out@ + model_escaped_string(
                g0.conf,
                g0.rng.seed(),
                g0.rng.pos(),
            ).0);
        }
    }

    // raw-string-quotes := '"' body '"'
    fn raw_string_quotes(&mut self)
        ensures
            step_ok(*old(self), *final(self)),
            final(self).depth == old(self).depth,
            old(self).conf.string_len_max == 0 ==> seg(old(self).out@, final(self).out@)
                == seq!['"', '"'],
            pinned(
                *old(self),
                *final(self),
                model_raw_quotes(old(self).conf, old(self).rng.seed(), old(self).rng.pos()),
            ),
    {
        let ghost g0 = *self;
        proof {
            reveal_strlit("\"");
            assert(plain("\""@));
        }
        self.wlit("\"");
        let ghost g1 = *self;
        self.put_raw_quotes_body(self.conf.string_len_max);
        let ghost g2 = *self;
        self.wlit("\"");
        proof {
            lemma_step_trans(g1, g2, *self);
            lemma_step_trans(g0, g1, *self);
            if g0.conf.string_len_max == 0 {
                assert(seg(g1.out@, g2.out@).len() == 0);
                assert(g2.out@ =~= g1.out@);
                assert(seg(g0.out@, self.out@) =~= seq!['"', '"']);
            }
            reveal(model_raw_quotes);
            assert(self.out@ =~= g0.out@ + model_raw_quotes(
                g0.conf,
                g0.rng.seed(),
                g0.rng.pos(),
            ).0);
        }
    }

    // raw-string := 'r' '#'^n raw-string-quotes '#'^n
    fn raw_string(&mut self)
        ensures
            step_ok(*old(self), *final(self)),
            final(self).depth == old(self).depth,
            pinned(
                *old(self),
                *final(self),
                model_raw_string(old(self).conf, old(self).rng.seed(), old(self).rng.pos()),
            ),
            old(self).conf.string_len_max == 0 ==> (exists|n: int|
                0 <= n && seg(old(self).out@, final(self).out@) == seq!['r'] + hash_run(n)
                    + seq!['"', '"'] + hash_run(n)),
    {
        let ghost fh = |c: Configuration, s: u64, p: u128| ("#"@, p);
        let ghost g0 = *self;
        proof {
            reveal_strlit("r");
            assert(plain("r"@));
        }
        self.wlit("r");
        proof {
            reveal_strlit("#");
            assert(plain("#"@));
        }
        let ghost g1 = *self;
        let ghost ffull = model_fence(
            g1.conf,
            g1.rng.seed(),
            g1.rng.pos(),
            g1.conf.nesting_max as int,
        );
        // Fence depth: each level chooses between one more hash pair and
        // the quoted body, up to the nesting bound.
        let mut n: u32 = 0;
        #[verifier::loop_isolation(true)]
        loop
            invariant_except_break
                self.out == g1.out,
                self.conf == g1.conf,
                self.depth == g1.depth,
                self.rng.seed() == g1.rng.seed(),
                n <= self.conf.nesting_max,
                ffull == model_fence(
                    g1.conf,
                    g1.rng.seed(),
                    g1.rng.pos(),
                    g1.conf.nesting_max as int,
                ),
                ({
                    let rest = model_fence(
                        g1.conf,
                        g1.rng.seed(),
                        self.rng.pos(),
                        g1.conf.nesting_max as int - n as int,
                    );
                    ffull.0 == n + rest.0 && ffull.1 == rest.1
                }),
            ensures
                self.out == g1.out,
                self.conf == g1.conf,
                self.depth == g1.depth,
                self.rng.seed() == g1.rng.seed(),
                n <= self.conf.nesting_max,
                ffull.0 == n as int,
                ffull.1 == self.rng.pos(),
            decreases self.conf.nesting_max as int - n as int,
        {
            if n >= self.conf.nesting_max {
                break ;
            }
            let k = self.crange(0, 1);
            if k == 1 {
                break ;
            }
            n = n + 1;
        }
        let ghost g2 = *self;
        proof {
            lemma_step_same_out(g1, g2);
            assert(g2.out@ + Seq::<char>::empty() =~= g2.out@);
        }
        let mut i: u32 = 0;
        while i < n
            invariant
                step_ok(g1, *self),
                self.depth == g1.depth,
                self.conf == g1.conf,
                i <= n,
                pinned(g2, *self, model_rep(fh, g2.conf, g2.rng.seed(), g2.rng.pos(), i as int)),
            decreases n as int - i as int,
        {
            let ghost gl = *self;
            self.wlit("#");
            proof {
                lemma_step_trans(g1, gl, *self);
                lemma_model_rep_snoc(fh, g2.conf, g2.rng.seed(), g2.rng.pos(), i as int);
                assert(g2.out@ + (model_rep(fh, g2.conf, g2.rng.seed(), g2.rng.pos(), i as int).0
                    + "#"@) =~= (g2.out@ + model_rep(
                    fh,
                    g2.conf,
                    g2.rng.seed(),
                    g2.rng.pos(),
                    i as int,
                ).0) + "#"@);
            }
            i = i + 1;
        }
        let ghost gq = *self;
        self.raw_string_quotes();
        proof {
            lemma_step_trans(g1, gq, *self);
        }
        let ghost g3 = *self;
        proof {
            assert(g3.out@ + Seq::<char>::empty() =~= g3.out@);
        }
        let mut j: u32 = 0;
        while j < n
            invariant
                step_ok(g1, *self),
                self.depth == g1.depth,
                self.conf == g1.conf,
                j <= n,
                pinned(g3, *self, model_rep(fh, g3.conf, g3.rng.seed(), g3.rng.pos(), j as int)),
            decreases n as int - j as int,
        {
            let ghost gl = *self;
            self.wlit("#");
            proof {
                lemma_step_trans(g1, gl, *self);
                lemma_model_rep_snoc(fh, g3.conf, g3.rng.seed(), g3.rng.pos(), j as int);
                assert(g3.out@ + (model_rep(fh, g3.conf, g3.rng.seed(), g3.rng.pos(), j as int).0
                    + "#"@) =~= (g3.out@ + model_rep(
                    fh,
                    g3.conf,
                    g3.rng.seed(),
                    g3.rng.pos(),
                    j as int,
                ).0) + "#"@);
            }
            j = j + 1;
        }
        proof {
            lemma_step_trans(g0, g1, *self);
            reveal(model_raw_string);
            assert(self.out@ =~= g0.out@ + model_raw_string(
                g0.conf,
                g0.rng.seed(),
                g0.rng.pos(),
            ).0);
            if g0.conf.string_len_max == 0 {
                lemma_rep_hash_run(g2.conf, g2.rng.seed(), g2.rng.pos(), n as int);
                lemma_rep_hash_run(g3.conf, g3.rng.seed(), g3.rng.pos(), n as int);
                lemma_prefix_seg(gq.out@, g3.out@);
                assert(g3.out@ =~= gq.out@ + seq!['"', '"']);
                assert(self.out@ =~= g0.out@ + (((seq!['r'] + hash_run(n as int)) + seq![
                    '"',
                    '"',
                ]) + hash_run(n as int)));
                assert(seg(g0.out@, self.out@) == seq!['r'] + hash_run(n as int) + seq![
                    '"',
                    '"',
                ] + hash_run(n as int));
            }
        }
    }


    /// Append between `min` and `extra_space_max` node-space units.
    fn node_space_reps(&mut self, min: u32)
        requires
            self.conf.wf(),
            min <= self.conf.extra_space_max,
        ensures
            step_ok(*old(self), *final(self)),
            final(self).depth == old(self).depth,
            pinned(
                *old(self),
                *final(self),
                model_node_space_reps(
                    old(self).conf,
                    old(self).rng.seed(),
                    old(self).rng.pos(),
                    min,
                ),
            ),
    {
        let ghost fns = |c: Configuration, s: u64, p: u128| model_node_space(c, s, p);
        let ghost g0 = *self;
        let n = self.crange(min, self.conf.extra_space_max);
        let ghost g1 = *self;
        proof {
            assert(g1.out@ + Seq::<char>::empty() =~= g1.out@);
        }
        let mut i: u32 = 0;
        while i < n
            invariant
                step_ok(g0, *self),
                self.depth == g0.depth,
                self.conf == g0.conf,
                i <= n,
                pinned(g1, *self, model_rep(fns, g1.conf, g1.rng.seed(), g1.rng.pos(), i as int)),
            decreases n as int - i as int,
        {
            let ghost gl = *self;
            self.node_space();
            proof {
                lemma_step_trans(g0, gl, *self);
                lemma_model_rep_snoc(fns, g1.conf, g1.rng.seed(), g1.rng.pos(), i as int);
                assert(g1.out@ + (model_rep(fns, g1.conf, g1.rng.seed(), g1.rng.pos(), i as int).0
                    + model_node_space(gl.conf, gl.rng.seed(), gl.rng.pos()).0) =~= (g1.out@
                    + model_rep(fns, g1.conf, g1.rng.seed(), g1.rng.pos(), i as int).0)
                    + model_node_space(gl.conf, gl.rng.seed(), gl.rng.pos()).0);
            }
            i = i + 1;
        }
        proof {
            reveal(model_node_space_reps);
            assert(self.out@ =~= g0.out@ + model_node_space_reps(
                g0.conf,
                g0.rng.seed(),
                g0.rng.pos(),
                min,
            ).0);
        }
    }

    // bare-identifier := a leading identifier character followed by
    // identifier characters, or a sign optionally followed by the same
    // with no digit right after the sign; never a keyword spelling
    #[verifier::rlimit(80)]
    fn bare_identifier(&mut self)
        requires
            self.conf.wf(),
        ensures
            step_ok(*old(self), *final(self)),
            final(self).depth == old(self).depth,
            !old(self).conf.debug ==> seg(old(self).out@, final(self).out@).len() >= 1,
            !old(self).conf.debug ==> ident_seg(seg(old(self).out@, final(self).out@)),
            seg(old(self).out@, final(self).out@) != "true"@ && seg(
                old(self).out@,
                final(self).out@,
            ) != "false"@ && seg(old(self).out@, final(self).out@) != "null"@,
            pinned(
                *old(self),
                *final(self),
                model_bare_identifier(old(self).conf, old(self).rng.seed(), old(self).rng.pos()),
            ),
    {
        let ghost fident = |c: Configuration, s: u64, p: u128| ident_char_draw(
            c.ascii_only,
            s,
            p,
        );
        let ghost g0 = *self;
        proof {
            reveal_strlit("<BARE-IDENTIFIER>");
            assert(plain("<BARE-IDENTIFIER>"@));
        }
        self.dbg("<BARE-IDENTIFIER>");
        let ghost g1 = *self;
        let k = self.crange(0, 1);
        let ghost ga = *self;
        if k == 0 {
            self.put_ident_char_first();
            proof {
                assert forall|i: int|
                    0 <= i < seg(ga.out@, self.out@).len() implies ident_char_ok(
                    #[trigger] seg(ga.out@, self.out@)[i],
                ) by {
                    assert(seg(ga.out@, self.out@)[i] == seg(ga.out@, self.out@)[0]);
                }
            }
            let m = self.conf.identifier_len_max - 1;
            let n = self.crange(0, m);
            let ghost gb = *self;
            proof {
                lemma_ident_seg_join(ga.out@, gb.out@, self.out@);
                assert(gb.out@ + Seq::<char>::empty() =~= gb.out@);
            }
            let mut i: u32 = 0;
            while i < n
                invariant
                    step_ok(ga, *self),
                    self.depth == ga.depth,
                    self.conf == ga.conf,
                    i <= n,
                    seg(ga.out@, self.out@).len() >= 1,
                    ident_seg(seg(ga.out@, self.out@)),
                    pinned(
                        gb,
                        *self,
                        model_rep(fident, gb.conf, gb.rng.seed(), gb.rng.pos(), i as int),
                    ),
                decreases n as int - i as int,
            {
                let ghost gl = *self;
                self.put_ident_char();
                proof {
                    lemma_step_trans(ga, gl, *self);
                    assert forall|q: int|
                        0 <= q < seg(gl.out@, self.out@).len() implies ident_char_ok(
                        #[trigger] seg(gl.out@, self.out@)[q],
                    ) by {
                        assert(seg(gl.out@, self.out@)[q] == seg(gl.out@, self.out@)[0]);
                    }
                    lemma_ident_seg_join(ga.out@, gl.out@, self.out@);
                    lemma_model_rep_snoc(fident, gb.conf, gb.rng.seed(), gb.rng.pos(), i as int);
                    assert(gb.out@ + (model_rep(
                        fident,
                        gb.conf,
                        gb.rng.seed(),
                        gb.rng.pos(),
                        i as int,
                    ).0 + ident_char_draw(gl.conf.ascii_only, gl.rng.seed(), gl.rng.pos()).0) =~= (
                    gb.out@ + model_rep(fident, gb.conf, gb.rng.seed(), gb.rng.pos(), i as int).0)
                        + ident_char_draw(gl.conf.ascii_only, gl.rng.seed(), gl.rng.pos()).0);
                }
                i = i + 1;
            }
        } else {
            self.sign();
            proof {
                assert forall|i: int|
                    0 <= i < seg(ga.out@, self.out@).len() implies ident_char_ok(
                    #[trigger] seg(ga.out@, self.out@)[i],
                ) by {
                    assert(seg(ga.out@, self.out@)[i] == seg(ga.out@, self.out@)[0]);
                }
            }
            let c = self.coin();
            let ghost gb = *self;
            proof {
                lemma_ident_seg_join(ga.out@, gb.out@, self.out@);
            }
            if c {
                let ghost gc = *self;
                self.put_ident_char_no_digit();
                proof {
                    lemma_step_trans(ga, gc, *self);
                    assert forall|q: int|
                        0 <= q < seg(gc.out@, self.out@).len() implies ident_char_ok(
                        #[trigger] seg(gc.out@, self.out@)[q],
                    ) by {
                        assert(seg(gc.out@, self.out@)[q] == seg(gc.out@, self.out@)[0]);
                    }
                    lemma_ident_seg_join(ga.out@, gc.out@, self.out@);
                }
                let m = self.conf.identifier_len_max - 1;
                let n = self.crange(0, m);
                let ghost gd = *self;
                proof {
                    lemma_ident_seg_join(ga.out@, gd.out@, self.out@);
                    assert(gd.out@ + Seq::<char>::empty() =~= gd.out@);
                }
                let mut i: u32 = 0;
                while i < n
                    invariant
                        step_ok(ga, *self),
                        self.depth == ga.depth,
                        self.conf == ga.conf,
                        i <= n,
                        seg(ga.out@, self.out@).len() >= 1,
                        ident_seg(seg(ga.out@, self.out@)),
                        pinned(
                            gd,
                            *self,
                            model_rep(fident, gd.conf, gd.rng.seed(), gd.rng.pos(), i as int),
                        ),
                    decreases n as int - i as int,
                {
                    let ghost gl = *self;
                    self.put_ident_char();
                    proof {
                        lemma_step_trans(ga, gl, *self);
                        assert forall|q: int|
                            0 <= q < seg(gl.out@, self.out@).len() implies ident_char_ok(
                            #[trigger] seg(gl.out@, self.out@)[q],
                        ) by {
                            assert(seg(gl.out@, self.out@)[q] == seg(gl.out@, self.out@)[0]);
                        }
                        lemma_ident_seg_join(ga.out@, gl.out@, self.out@);
                        lemma_model_rep_snoc(
                            fident,
                            gd.conf,
                            gd.rng.seed(),
                            gd.rng.pos(),
                            i as int,
                        );
                        assert(gd.out@ + (model_rep(
                            fident,
                            gd.conf,
                            gd.rng.seed(),
                            gd.rng.pos(),
                            i as int,
                        ).0 + ident_char_draw(gl.conf.ascii_only, gl.rng.seed(), gl.rng.pos()).0)
                            =~= (gd.out@ + model_rep(
                            fident,
                            gd.conf,
                            gd.rng.seed(),
                            gd.rng.pos(),
                            i as int,
                        ).0) + ident_char_draw(gl.conf.ascii_only, gl.rng.seed(), gl.rng.pos()).0);
                    }
                    i = i + 1;
                }
            }
        }
        let ghost ge = *self;
        proof {
            reveal_strlit("</BARE-IDENTIFIER>");
            assert(plain("</BARE-IDENTIFIER>"@));
        }
        self.dbg("</BARE-IDENTIFIER>");
        proof {
            lemma_step_trans(g1, ga, ge);
            lemma_step_trans(g0, g1, ge);
            lemma_step_trans(g0, ge, *self);
            if !g0.conf.debug {
                assert(g1.out == g0.out && ga.out == g1.out && self.out == ge.out);
                let s = seg(g0.out@, self.out@);
                assert(s == seg(ga.out@, ge.out@));
                assert forall|i: int| 0 <= i < s.len() implies s[i] != 'u' && s[i] != 'l' by {
                    assert(ident_char_ok(s[i]));
                }
                lemma_no_ul_not_keyword(s);
            } else {
                // A traced segment opens with the marker's `<`, which no
                // keyword spelling does.
                let s = seg(g0.out@, self.out@);
                lemma_prefix_seg(g0.out@, self.out@);
                assert(s[0] == g1.out@[g0.out@.len() as int]);
                assert(s[0] == '<');
                reveal_strlit("true");
                reveal_strlit("false");
                reveal_strlit("null");
                if s == "true"@ {
                    assert(s[0] == 't');
                }
                if s == "false"@ {
                    assert(s[0] == 'f');
                }
                if s == "null"@ {
                    assert(s[0] == 'n');
                }
            }
            reveal(model_bare_identifier);
            assert(self.out@ =~= g0.out@ + model_bare_identifier(
                g0.conf,
                g0.rng.seed(),
                g0.rng.pos(),
            ).0);
        }
    }

    // identifier := string | bare-identifier
    fn identifier(&mut self)
        requires
            self.conf.wf(),
        ensures
            step_ok(*old(self), *final(self)),
            final(self).depth == old(self).depth,
            pinned(
                *old(self),
                *final(self),
                model_identifier(old(self).conf, old(self).rng.seed(), old(self).rng.pos()),
            ),
    {
        let ghost g0 = *self;
        proof {
            reveal_strlit("<IDENTIFIER>");
            assert(plain("<IDENTIFIER>"@));
        }
        self.dbg("<IDENTIFIER>");
        let ghost g1 = *self;
        let k = self.crange(0, 1);
        let ghost g2 = *self;
        if k == 0 {
            self.string_rule();
        } else {
            self.bare_identifier();
        }
        let ghost g3 = *self;
        proof {
            reveal_strlit("</IDENTIFIER>");
            assert(plain("</IDENTIFIER>"@));
        }
        self.dbg("</IDENTIFIER>");
        proof {
            lemma_step_trans(g1, g2, g3);
            lemma_step_trans(g0, g1, g3);
            lemma_step_trans(g0, g3, *self);
            reveal(model_identifier);
            assert(self.out@ =~= g0.out@ + model_identifier(
                g0.conf,
                g0.rng.seed(),
                g0.rng.pos(),
            ).0);
        }
    }

    // type := '(' identifier ')'
    fn type_rule(&mut self)
        requires
            self.conf.wf(),
        ensures
            step_ok(*old(self), *final(self)),
            final(self).depth == old(self).depth,
            pinned(
                *old(self),
                *final(self),
                model_type_rule(old(self).conf, old(self).rng.seed(), old(self).rng.pos()),
            ),
    {
        let ghost g0 = *self;
        proof {
            reveal_strlit("<TYPE>");
            assert(plain("<TYPE>"@));
        }
        self.dbg("<TYPE>");
        let ghost g1 = *self;
        proof {
            reveal_strlit("(");
            assert(plain("("@));
        }
        self.wlit("(");
        let ghost g2 = *self;
        self.identifier();
        let ghost g3 = *self;
        proof {
            reveal_strlit(")");
            assert(plain(")"@));
        }
        self.wlit(")");
        let ghost g4 = *self;
        proof {
            reveal_strlit("</TYPE>");
            assert(plain("</TYPE>"@));
        }
        self.dbg("</TYPE>");
        proof {
            lemma_step_trans(g0, g1, g2);
            lemma_step_trans(g0, g2, g3);
            lemma_step_trans(g0, g3, g4);
            lemma_step_trans(g0, g4, *self);
            reveal(model_type_rule);
            assert(self.out@ =~= g0.out@ + model_type_rule(
                g0.conf,
                g0.rng.seed(),
                g0.rng.pos(),
            ).0);
        }
    }

    // value := type? (string | number | keyword)
    fn value(&mut self)
        requires
            self.conf.wf(),
        ensures
            step_ok(*old(self), *final(self)),
            final(self).depth == old(self).depth,
            pinned(
                *old(self),
                *final(self),
                model_value(old(self).conf, old(self).rng.seed(), old(self).rng.pos()),
            ),
    {
        let ghost g0 = *self;
        proof {
            reveal_strlit("<VALUE>");
            assert(plain("<VALUE>"@));
        }
        self.dbg("<VALUE>");
        let ghost g1 = *self;
        let c = self.coin();
        let ghost g2 = *self;
        if c {
            self.type_rule();
        }
        let ghost g3 = *self;
        let k = self.crange(0, 2);
        let ghost g4 = *self;
        if k == 0 {
            self.string_rule();
        } else if k == 1 {
            self.number();
        } else {
            self.keyword();
        }
        let ghost g5 = *self;
        proof {
            reveal_strlit("</VALUE>");
            assert(plain("</VALUE>"@));
        }
        self.dbg("</VALUE>");
        proof {
            lemma_step_trans(g1, g2, g3);
            lemma_step_trans(g1, g3, g4);
            lemma_step_trans(g1, g4, g5);
            lemma_step_trans(g0, g1, g5);
            lemma_step_trans(g0, g5, *self);
            reveal(model_value);
            assert(self.out@ =~= g0.out@ + model_value(
                g0.conf,
                g0.rng.seed(),
                g0.rng.pos(),
            ).0);
        }
    }

    // prop := identifier '=' value
    fn prop(&mut self)
        requires
            self.conf.wf(),
        ensures
            step_ok(*old(self), *final(self)),
            final(self).depth == old(self).depth,
            pinned(
                *old(self),
                *final(self),
                model_prop(old(self).conf, old(self).rng.seed(), old(self).rng.pos()),
            ),
    {
        let ghost g0 = *self;
        proof {
            reveal_strlit("<PROP>");
            assert(plain("<PROP>"@));
        }
        self.dbg("<PROP>");
        let ghost g1 = *self;
        self.identifier();
        let ghost g2 = *self;
        proof {
            reveal_strlit("=");
            assert(plain("="@));
        }
        self.wlit("=");
        let ghost g3 = *self;
        self.value();
        let ghost g4 = *self;
        proof {
            reveal_strlit("</PROP>");
            assert(plain("</PROP>"@));
        }
        self.dbg("</PROP>");
        proof {
            lemma_step_trans(g0, g1, g2);
            lemma_step_trans(g0, g2, g3);
            lemma_step_trans(g0, g3, g4);
            lemma_step_trans(g0, g4, *self);
            reveal(model_prop);
            assert(self.out@ =~= g0.out@ + model_prop(
                g0.conf,
                g0.rng.seed(),
                g0.rng.pos(),
            ).0);
        }
    }

    // node-prop-or-arg := ('/-' node-space*)? (prop | value)
    fn node_prop_or_arg(&mut self)
        requires
            self.conf.wf(),
        ensures
            step_ok(*old(self), *final(self)),
            final(self).depth == old(self).depth,
            pinned(
                *old(self),
                *final(self),
                model_node_prop_or_arg(old(self).conf, old(self).rng.seed(), old(self).rng.pos()),
            ),
    {
        let ghost g0 = *self;
        proof {
            reveal_strlit("<NODE-PROP-OR-ARG>");
            assert(plain("<NODE-PROP-OR-ARG>"@));
        }
        self.dbg("<NODE-PROP-OR-ARG>");
        let ghost g1 = *self;
        let c = self.coin();
        let ghost g2 = *self;
        if c {
            proof {
                reveal_strlit("/-");
                assert(plain("/-"@));
            }
            self.wlit("/-");
            let ghost gd = *self;
            self.node_space_reps(0);
            proof {
                lemma_step_trans(g2, gd, *self);
            }
        }
        let ghost g3 = *self;
        let k = self.crange(0, 1);
        let ghost g4 = *self;
        if k == 0 {
            self.prop();
        } else {
            self.value();
        }
        let ghost g5 = *self;
        proof {
            reveal_strlit("</NODE-PROP-OR-ARG>");
            assert(plain("</NODE-PROP-OR-ARG>"@));
        }
        self.dbg("</NODE-PROP-OR-ARG>");
        proof {
            lemma_step_trans(g1, g2, g3);
            lemma_step_trans(g1, g3, g4);
            lemma_step_trans(g1, g4, g5);
            lemma_step_trans(g0, g1, g5);
            lemma_step_trans(g0, g5, *self);
            reveal(model_node_prop_or_arg);
            assert(self.out@ =~= g0.out@ + model_node_prop_or_arg(
                g0.conf,
                g0.rng.seed(),
                g0.rng.pos(),
            ).0);
        }
    }

    // integer := digit (digit | '_')*
    fn integer(&mut self)
        ensures
            step_ok(*old(self), *final(self)),
            final(self).depth == old(self).depth,
            pinned(
                *old(self),
                *final(self),
                model_integer(old(self).conf, old(self).rng.seed(), old(self).rng.pos()),
            ),
    {
        let ghost g0 = *self;
        let rep = self.conf.num_len_max;
        self.put_decimal_digits(rep);
        proof {
            reveal(model_integer);
            assert(self.out@ == g0.out@ + model_integer(
                g0.conf,
                g0.rng.seed(),
                g0.rng.pos(),
            ).0);
        }
    }

    // exponent := ('e' | 'E') sign? integer
    fn exponent(&mut self)
        ensures
            step_ok(*old(self), *final(self)),
            final(self).depth == old(self).depth,
            pinned(
                *old(self),
                *final(self),
                model_exponent(old(self).conf, old(self).rng.seed(), old(self).rng.pos()),
            ),
    {
        let ghost g0 = *self;
        let k = self.crange(0, 1);
        let ghost g1 = *self;
        if k == 0 {
            proof {
                reveal_strlit("e");
                assert(plain("e"@));
            }
            self.wlit("e");
        } else {
            proof {
                reveal_strlit("E");
                assert(plain("E"@));
            }
            self.wlit("E");
        }
        let ghost g2 = *self;
        let c = self.coin();
        let ghost g3 = *self;
        if c {
            self.sign();
        }
        let ghost g4 = *self;
        self.integer();
        proof {
            lemma_step_trans(g0, g1, g2);
            lemma_step_trans(g0, g2, g3);
            lemma_step_trans(g0, g3, g4);
            lemma_step_trans(g0, g4, *self);
            reveal(model_exponent);
            assert(self.out@ =~= g0.out@ + model_exponent(
                g0.conf,
                g0.rng.seed(),
                g0.rng.pos(),
            ).0);
        }
    }

    // decimal := sign? integer ('.' integer)? exponent?
    fn decimal(&mut self)
        ensures
            step_ok(*old(self), *final(self)),
            final(self).depth == old(self).depth,
            pinned(
                *old(self),
                *final(self),
                model_decimal(old(self).conf, old(self).rng.seed(), old(self).rng.pos()),
            ),
    {
        let ghost g0 = *self;
        let c1 = self.coin();
        let ghost g1 = *self;
        if c1 {
            self.sign();
        }
        let ghost g2 = *self;
        self.integer();
        let ghost g3 = *self;
        let c2 = self.coin();
        let ghost g4 = *self;
        if c2 {
            proof {
                reveal_strlit(".");
                assert(plain("."@));
            }
            self.wlit(".");
            let ghost gd = *self;
            self.integer();
            proof {
                lemma_step_trans(g4, gd, *self);
            }
        }
        let ghost g5 = *self;
        let c3 = self.coin();
        let ghost g6 = *self;
        if c3 {
            self.exponent();
        }
        proof {
            lemma_step_trans(g0, g1, g2);
            lemma_step_trans(g0, g2, g3);
            lemma_step_trans(g0, g3, g4);
            lemma_step_trans(g0, g4, g5);
            lemma_step_trans(g0, g5, g6);
            lemma_step_trans(g0, g6, *self);
            reveal(model_decimal);
            assert(self.out@ =~= g0.out@ + model_decimal(
                g0.conf,
                g0.rng.seed(),
                g0.rng.pos(),
            ).0);
        }
    }

    // hex := sign? '0x' hex-digit (hex-digit | '_')*
    fn hex(&mut self)
        ensures
            step_ok(*old(self), *final(self)),
            final(self).depth == old(self).depth,
            pinned(
                *old(self),
                *final(self),
                model_hex(old(self).conf, old(self).rng.seed(), old(self).rng.pos()),
            ),
    {
        let ghost g0 = *self;
        let c = self.coin();
        let ghost g1 = *self;
        if c {
            self.sign();
        }
        let ghost g2 = *self;
        proof {
            reveal_strlit("0x");
            assert(plain("0x"@));
        }
        self.wlit("0x");
        let ghost g3 = *self;
        let rep = self.conf.num_len_max;
        self.put_hex_digits(rep);
        proof {
            lemma_step_trans(g0, g1, g2);
            lemma_step_trans(g0, g2, g3);
            lemma_step_trans(g0, g3, *self);
            reveal(model_hex);
            assert(self.out@ =~= g0.out@ + model_hex(
                g0.conf,
                g0.rng.seed(),
                g0.rng.pos(),
            ).0);
        }
    }

    // octal := sign? '0o' [0-7] ([0-7] | '_')*
    fn octal(&mut self)
        ensures
            step_ok(*old(self), *final(self)),
            final(self).depth == old(self).depth,
            pinned(
                *old(self),
                *final(self),
                model_octal(old(self).conf, old(self).rng.seed(), old(self).rng.pos()),
            ),
    {
        let ghost g0 = *self;
        let c = self.coin();
        let ghost g1 = *self;
        if c {
            self.sign();
        }
        let ghost g2 = *self;
        proof {
            reveal_strlit("0o");
            assert(plain("0o"@));
        }
        self.wlit("0o");
        let ghost g3 = *self;
        let rep = self.conf.num_len_max;
        self.put_octal_digits(rep);
        proof {
            lemma_step_trans(g0, g1, g2);
            lemma_step_trans(g0, g2, g3);
            lemma_step_trans(g0, g3, *self);
            reveal(model_octal);
            assert(self.out@ =~= g0.out@ + model_octal(
                g0.conf,
                g0.rng.seed(),
                g0.rng.pos(),
            ).0);
        }
    }

    // binary := sign? '0b' ('0' | '1') ('0' | '1' | '_')*
    fn binary(&mut self)
        ensures
            step_ok(*old(self), *final(self)),
            final(self).depth == old(self).depth,
            pinned(
                *old(self),
                *final(self),
                model_binary(old(self).conf, old(self).rng.seed(), old(self).rng.pos()),
            ),
    {
        let ghost g0 = *self;
        let c = self.coin();
        let ghost g1 = *self;
        if c {
            self.sign();
        }
        let ghost g2 = *self;
        proof {
            reveal_strlit("0b");
            assert(plain("0b"@));
        }
        self.wlit("0b");
        let ghost g3 = *self;
        let rep = self.conf.num_len_max;
        self.put_binary_digits(rep);
        proof {
            lemma_step_trans(g0, g1, g2);
            lemma_step_trans(g0, g2, g3);
            lemma_step_trans(g0, g3, *self);
            reveal(model_binary);
            assert(self.out@ =~= g0.out@ + model_binary(
                g0.conf,
                g0.rng.seed(),
                g0.rng.pos(),
            ).0);
        }
    }

    // number := decimal | hex | octal | binary
    fn number(&mut self)
        ensures
            step_ok(*old(self), *final(self)),
            final(self).depth == old(self).depth,
            pinned(
                *old(self),
                *final(self),
                model_number(old(self).conf, old(self).rng.seed(), old(self).rng.pos()),
            ),
    {
        let ghost g0 = *self;
        proof {
            reveal_strlit("<NUMBER>");
            assert(plain("<NUMBER>"@));
        }
        self.dbg("<NUMBER>");
        let ghost g1 = *self;
        let k = self.crange(0, 3);
        let ghost g2 = *self;
        if k == 0 {
            self.decimal();
        } else if k == 1 {
            self.hex();
        } else if k == 2 {
            self.octal();
        } else {
            self.binary();
        }
        let ghost g3 = *self;
        proof {
            reveal_strlit("</NUMBER>");
            assert(plain("</NUMBER>"@));
        }
        self.dbg("</NUMBER>");
        proof {
            lemma_step_trans(g1, g2, g3);
            lemma_step_trans(g0, g1, g3);
            lemma_step_trans(g0, g3, *self);
            reveal(model_number);
            assert(self.out@ =~= g0.out@ + model_number(
                g0.conf,
                g0.rng.seed(),
                g0.rng.pos(),
            ).0);
        }
    }

    // newline := one of the grammar's line-break sequences
    fn newline(&mut self)
        ensures
            step_ok(*old(self), *final(self)),
            final(self).depth == old(self).depth,
            pinned(
                *old(self),
                *final(self),
                model_newline(old(self).conf, old(self).rng.seed(), old(self).rng.pos()),
            ),
    {
        let ghost g0 = *self;
        if self.conf.ascii_only {
            let k = self.crange(0, 2);
            let ghost g1 = *self;
            if k == 0 {
                proof {
                    reveal_strlit("\u{000D}");
                    assert(plain("\u{000D}"@));
                }
                self.wlit("\u{000D}");
            } else if k == 1 {
                proof {
                    reveal_strlit("\u{000A}");
                    assert(plain("\u{000A}"@));
                }
                self.wlit("\u{000A}");
            } else {
                proof {
                    reveal_strlit("\u{000D}\u{000A}");
                    assert(plain("\u{000D}\u{000A}"@));
                }
                self.wlit("\u{000D}\u{000A}");
            }
            proof {
                lemma_step_trans(g0, g1, *self);
                reveal(model_newline);
            assert(self.out@ =~= g0.out@ + model_newline(
                    g0.conf,
                    g0.rng.seed(),
                    g0.rng.pos(),
                ).0);
            }
        } else {
            let k = self.crange(0, 6);
            let ghost g1 = *self;
            if k == 0 {
                self.wlit_any("\u{000D}");
            } else if k == 1 {
                self.wlit_any("\u{000A}");
            } else if k == 2 {
                self.wlit_any("\u{000D}\u{000A}");
            } else if k == 3 {
                self.wlit_any("\u{0085}");
            } else if k == 4 {
                self.wlit_any("\u{000C}");
            } else if k == 5 {
                self.wlit_any("\u{2028}");
            } else {
                self.wlit_any("\u{2029}");
            }
            proof {
                lemma_step_trans(g0, g1, *self);
                reveal(model_newline);
            assert(self.out@ =~= g0.out@ + model_newline(
                    g0.conf,
                    g0.rng.seed(),
                    g0.rng.pos(),
                ).0);
            }
        }
    }

    // bom := U+FEFF; only offered outside ASCII mode
    fn bom(&mut self)
        requires
            !self.conf.ascii_only,
        ensures
            step_ok(*old(self), *final(self)),
            final(self).depth == old(self).depth,
            pinned(
                *old(self),
                *final(self),
                model_bom(old(self).conf, old(self).rng.seed(), old(self).rng.pos()),
            ),
    {
        let ghost g0 = *self;
        self.wlit_any("\u{FEFF}");
        proof {
            reveal(model_bom);
            assert(self.out@ == g0.out@ + model_bom(g0.conf, g0.rng.seed(), g0.rng.pos()).0);
        }
    }

    // unicode-space := one non-breaking whitespace character
    fn unicode_space(&mut self)
        ensures
            step_ok(*old(self), *final(self)),
            final(self).depth == old(self).depth,
            pinned(
                *old(self),
                *final(self),
                model_unicode_space(old(self).conf, old(self).rng.seed(), old(self).rng.pos()),
            ),
    {
        let ghost g0 = *self;
        if self.conf.ascii_only {
            let k = self.crange(0, 1);
            let ghost g1 = *self;
            if k == 0 {
                proof {
                    reveal_strlit("\u{0009}");
                    assert(plain("\u{0009}"@));
                }
                self.wlit("\u{0009}");
            } else {
                proof {
                    reveal_strlit("\u{0020}");
                    assert(plain("\u{0020}"@));
                }
                self.wlit("\u{0020}");
            }
            proof {
                lemma_step_trans(g0, g1, *self);
                reveal(model_unicode_space);
            assert(self.out@ =~= g0.out@ + model_unicode_space(
                    g0.conf,
                    g0.rng.seed(),
                    g0.rng.pos(),
                ).0);
            }
        } else {
            let k = self.crange(0, 17);
            let ghost g1 = *self;
            if k == 0 {
                self.wlit_any("\u{0009}");
            } else if k == 1 {
                self.wlit_any("\u{0020}");
            } else if k == 2 {
                self.wlit_any("\u{00A0}");
            } else if k == 3 {
                self.wlit_any("\u{1680}");
            } else if k == 4 {
                self.wlit_any("\u{2000}");
            } else if k == 5 {
                self.wlit_any("\u{2001}");
            } else if k == 6 {
                self.wlit_any("\u{2002}");
            } else if k == 7 {
                self.wlit_any("\u{2003}");
            } else if k == 8 {
                self.wlit_any("\u{2004}");
            } else if k == 9 {
                self.wlit_any("\u{2005}");
            } else if k == 10 {
                self.wlit_any("\u{2006}");
            } else if k == 11 {
                self.wlit_any("\u{2007}");
            } else if k == 12 {
                self.wlit_any("\u{2008}");
            } else if k == 13 {
                self.wlit_any("\u{2009}");
            } else if k == 14 {
                self.wlit_any("\u{200A}");
            } else if k == 15 {
                self.wlit_any("\u{202F}");
            } else if k == 16 {
                self.wlit_any("\u{205F}");
            } else {
                self.wlit_any("\u{3000}");
            }
            proof {
                lemma_step_trans(g0, g1, *self);
                reveal(model_unicode_space);
            assert(self.out@ =~= g0.out@ + model_unicode_space(
                    g0.conf,
                    g0.rng.seed(),
                    g0.rng.pos(),
                ).0);
            }
        }
    }

    // single-line-comment := '//' text newline
    fn single_line_comment(&mut self)
        requires
            self.conf.wf(),
        ensures
            step_ok(*old(self), *final(self)),
            final(self).depth == old(self).depth,
            pinned(
                *old(self),
                *final(self),
                model_single_line_comment(
                    old(self).conf,
                    old(self).rng.seed(),
                    old(self).rng.pos(),
                ),
            ),
    {
        let ghost g0 = *self;
        proof {
            reveal_strlit("<SINGLE-LINE-COMMENT>");
            assert(plain("<SINGLE-LINE-COMMENT>"@));
        }
        self.dbg("<SINGLE-LINE-COMMENT>");
        let ghost g1 = *self;
        proof {
            reveal_strlit("//");
            assert(plain("//"@));
        }
        self.wlit("//");
        let ghost g2 = *self;
        let rep = self.conf.comment_len_max;
        self.put_comment_text(rep);
        let ghost g3 = *self;
        self.newline();
        let ghost g4 = *self;
        proof {
            reveal_strlit("</SINGLE-LINE-COMMENT>");
            assert(plain("</SINGLE-LINE-COMMENT>"@));
        }
        self.dbg("</SINGLE-LINE-COMMENT>");
        proof {
            lemma_step_trans(g0, g1, g2);
            lemma_step_trans(g0, g2, g3);
            lemma_step_trans(g0, g3, g4);
            lemma_step_trans(g0, g4, *self);
            reveal(model_single_line_comment);
            assert(self.out@ =~= g0.out@ + model_single_line_comment(
                g0.conf,
                g0.rng.seed(),
                g0.rng.pos(),
            ).0);
        }
    }

    // multi-line-comment := '/*' commented-block
    fn multi_line_comment(&mut self, fuel: u32)
        requires
            self.conf.wf(),
        ensures
            step_ok(*old(self), *final(self)),
            final(self).depth == old(self).depth,
            pinned(
                *old(self),
                *final(self),
                model_multi_line_comment(
                    old(self).conf,
                    old(self).rng.seed(),
                    old(self).rng.pos(),
                    fuel as int,
                ),
            ),
        decreases fuel as int, 1int,
    {
        let ghost g0 = *self;
        proof {
            reveal_strlit("<MULTI-LINE-COMMENT>");
            assert(plain("<MULTI-LINE-COMMENT>"@));
        }
        self.dbg("<MULTI-LINE-COMMENT>");
        let ghost g1 = *self;
        proof {
            reveal_strlit("/*");
            assert(plain("/*"@));
        }
        self.wlit("/*");
        let ghost g2 = *self;
        self.commented_block(fuel);
        let ghost g3 = *self;
        proof {
            reveal_strlit("</MULTI-LINE-COMMENT>");
            assert(plain("</MULTI-LINE-COMMENT>"@));
        }
        self.dbg("</MULTI-LINE-COMMENT>");
        proof {
            lemma_step_trans(g0, g1, g2);
            lemma_step_trans(g0, g2, g3);
            lemma_step_trans(g0, g3, *self);
            assert(self.out@ =~= g0.out@ + model_multi_line_comment(
                g0.conf,
                g0.rng.seed(),
                g0.rng.pos(),
                fuel as int,
            ).0);
        }
    }

    // commented-block := '*/' | chunk commented-block, where a chunk is
    // a guarded star, a guarded slash, star-and-slash-free text, or a
    // nested multi-line comment; the chunk chain and the nesting are
    // both cut off at the nesting bound.
    fn commented_block(&mut self, fuel: u32)
        requires
            self.conf.wf(),
        ensures
            step_ok(*old(self), *final(self)),
            final(self).depth == old(self).depth,
            pinned(
                *old(self),
                *final(self),
                model_commented_block(
                    old(self).conf,
                    old(self).rng.seed(),
                    old(self).rng.pos(),
                    fuel as int,
                    old(self).conf.nesting_max as int,
                ),
            ),
        decreases fuel as int, 0int,
    {
        let ghost g0 = *self;
        let ghost full = model_commented_block(
            g0.conf,
            g0.rng.seed(),
            g0.rng.pos(),
            fuel as int,
            g0.conf.nesting_max as int,
        );
        proof {
            reveal_strlit("*/");
            assert(plain("*/"@));
            assert(Seq::<char>::empty() + full.0 =~= full.0);
            assert(seg(g0.out@, g0.out@) =~= Seq::<char>::empty());
        }
        let mut i: u32 = 0;
        #[verifier::loop_isolation(true)]
        loop
            invariant_except_break
                step_ok(g0, *self),
                self.depth == g0.depth,
                self.conf == g0.conf,
                self.conf.wf(),
                i <= self.conf.nesting_max,
                full == model_commented_block(
                    g0.conf,
                    g0.rng.seed(),
                    g0.rng.pos(),
                    fuel as int,
                    g0.conf.nesting_max as int,
                ),
                ({
                    let rest = model_commented_block(
                        g0.conf,
                        g0.rng.seed(),
                        self.rng.pos(),
                        fuel as int,
                        g0.conf.nesting_max as int - i as int,
                    );
                    full.0 == seg(g0.out@, self.out@) + rest.0 && full.1 == rest.1
                }),
            ensures
                step_ok(g0, *self),
                self.depth == g0.depth,
                self.conf == g0.conf,
                pinned(g0, *self, full),
            decreases self.conf.nesting_max as int - i as int,
        {
            let ghost gi = *self;
            let ghost rest0 = model_commented_block(
                g0.conf,
                g0.rng.seed(),
                gi.rng.pos(),
                fuel as int,
                g0.conf.nesting_max as int - i as int,
            );
            let k = self.crange(0, 1);
            proof {
                lemma_step_trans(g0, gi, *self);
            }
            if k == 0 {
                let ghost gb = *self;
                proof {
                    reveal_strlit("*/");
                    assert(plain("*/"@));
                }
                self.wlit("*/");
                proof {
                    lemma_step_trans(g0, gb, *self);
                    lemma_prefix_seg(g0.out@, gb.out@);
                    assert(self.out@ =~= g0.out@ + (seg(g0.out@, gb.out@) + "*/"@));
                    assert(full.0 == seg(g0.out@, gb.out@) + "*/"@);
                }
                break ;
            }
            let ghost gc = *self;
            let j = self.crange(0, 3);
            proof {
                lemma_step_trans(g0, gc, *self);
            }
            let ghost gd = *self;
            if j == 0 {
                self.put_block_star();
            } else if j == 1 {
                self.put_block_slash();
            } else if j == 2 {
                let rep = self.conf.comment_len_max;
                self.put_block_text(rep);
            } else {
                if fuel > 0 {
                    self.multi_line_comment(fuel - 1);
                } else {
                    let rep = self.conf.comment_len_max;
                    self.put_block_text(rep);
                }
            }
            let ghost ge = *self;
            proof {
                lemma_step_trans(g0, gd, *self);
                lemma_prefix_seg(g0.out@, gd.out@);
                assert(ge.out@ =~= g0.out@ + (seg(g0.out@, gd.out@) + seg(gd.out@, ge.out@)));
            }
            if i >= self.conf.nesting_max {
                proof {
                    reveal_strlit("*/");
                    assert(plain("*/"@));
                }
                self.wlit("*/");
                proof {
                    lemma_step_trans(g0, ge, *self);
                    lemma_prefix_seg(g0.out@, ge.out@);
                    assert(self.out@ =~= g0.out@ + (seg(g0.out@, gd.out@) + (seg(
                        gd.out@,
                        ge.out@,
                    ) + "*/"@)));
                    assert(full.0 == seg(g0.out@, gd.out@) + (seg(gd.out@, ge.out@) + "*/"@));
                }
                break ;
            }
            i = i + 1;
            proof {
                assert(seg(g0.out@, ge.out@) =~= seg(g0.out@, gd.out@) + seg(gd.out@, ge.out@));
                assert(full.0 == seg(g0.out@, ge.out@) + model_commented_block(
                    g0.conf,
                    g0.rng.seed(),
                    ge.rng.pos(),
                    fuel as int,
                    g0.conf.nesting_max as int - i as int,
                ).0);
            }
        }
    }

    // ws := bom | unicode-space | multi-line-comment
    fn ws(&mut self)
        requires
            self.conf.wf(),
        ensures
            step_ok(*old(self), *final(self)),
            final(self).depth == old(self).depth,
            pinned(
                *old(self),
                *final(self),
                model_ws(old(self).conf, old(self).rng.seed(), old(self).rng.pos()),
            ),
    {
        let ghost g0 = *self;
        proof {
            reveal_strlit("<WS>");
            assert(plain("<WS>"@));
        }
        self.dbg("<WS>");
        let ghost g1 = *self;
        if self.conf.ascii_only {
            let k = self.crange(0, 1);
            let ghost g2 = *self;
            if k == 0 {
                self.unicode_space();
            } else {
                let fuel = self.conf.nesting_max;
                self.multi_line_comment(fuel);
            }
            proof {
                lemma_step_trans(g1, g2, *self);
            }
        } else {
            let k = self.crange(0, 2);
            let ghost g2 = *self;
            if k == 0 {
                self.bom();
            } else if k == 1 {
                self.unicode_space();
            } else {
                let fuel = self.conf.nesting_max;
                self.multi_line_comment(fuel);
            }
            proof {
                lemma_step_trans(g1, g2, *self);
            }
        }
        let ghost g3 = *self;
        proof {
            reveal_strlit("</WS>");
            assert(plain("</WS>"@));
        }
        self.dbg("</WS>");
        proof {
            lemma_step_trans(g0, g1, g3);
            lemma_step_trans(g0, g3, *self);
            reveal(model_ws);
            assert(self.out@ =~= g0.out@ + model_ws(g0.conf, g0.rng.seed(), g0.rng.pos()).0);
        }
    }

    /// Append between `min` and `extra_space_max` whitespace units.
    fn ws_reps(&mut self, min: u32)
        requires
            self.conf.wf(),
            min <= self.conf.extra_space_max,
        ensures
            step_ok(*old(self), *final(self)),
            final(self).depth == old(self).depth,
            pinned(
                *old(self),
                *final(self),
                model_ws_reps(old(self).conf, old(self).rng.seed(), old(self).rng.pos(), min),
            ),
    {
        let ghost fws = |c: Configuration, s: u64, p: u128| model_ws(c, s, p);
        let ghost g0 = *self;
        let n = self.crange(min, self.conf.extra_space_max);
        let ghost g1 = *self;
        proof {
            assert(g1.out@ + Seq::<char>::empty() =~= g1.out@);
        }
        let mut i: u32 = 0;
        while i < n
            invariant
                step_ok(g0, *self),
                self.depth == g0.depth,
                self.conf == g0.conf,
                i <= n,
                pinned(g1, *self, model_rep(fws, g1.conf, g1.rng.seed(), g1.rng.pos(), i as int)),
            decreases n as int - i as int,
        {
            let ghost gl = *self;
            self.ws();
            proof {
                lemma_step_trans(g0, gl, *self);
                lemma_model_rep_snoc(fws, g1.conf, g1.rng.seed(), g1.rng.pos(), i as int);
                assert(g1.out@ + (model_rep(fws, g1.conf, g1.rng.seed(), g1.rng.pos(), i as int).0
                    + model_ws(gl.conf, gl.rng.seed(), gl.rng.pos()).0) =~= (g1.out@ + model_rep(
                    fws,
                    g1.conf,
                    g1.rng.seed(),
                    g1.rng.pos(),
                    i as int,
                ).0) + model_ws(gl.conf, gl.rng.seed(), gl.rng.pos()).0);
            }
            i = i + 1;
        }
        proof {
            reveal(model_ws_reps);
            assert(self.out@ =~= g0.out@ + model_ws_reps(
                g0.conf,
                g0.rng.seed(),
                g0.rng.pos(),
                min,
            ).0);
        }
    }

    // escline := '\' ws* (single-line-comment | newline)
    fn escline(&mut self)
        requires
            self.conf.wf(),
        ensures
            step_ok(*old(self), *final(self)),
            final(self).depth == old(self).depth,
            pinned(
                *old(self),
                *final(self),
                model_escline(old(self).conf, old(self).rng.seed(), old(self).rng.pos()),
            ),
    {
        let ghost g0 = *self;
        proof {
            reveal_strlit("<ESCLINE>");
            assert(plain("<ESCLINE>"@));
        }
        self.dbg("<ESCLINE>");
        let ghost g1 = *self;
        proof {
            reveal_strlit("\\");
            assert(plain("\\"@));
        }
        self.wlit("\\");
        let ghost g2 = *self;
        self.ws_reps(0);
        let ghost g3 = *self;
        let k = self.crange(0, 1);
        let ghost g4 = *self;
        if k == 0 {
            self.single_line_comment();
        } else {
            self.newline();
        }
        let ghost g5 = *self;
        proof {
            reveal_strlit("</ESCLINE>");
            assert(plain("</ESCLINE>"@));
        }
        self.dbg("</ESCLINE>");
        proof {
            lemma_step_trans(g0, g1, g2);
            lemma_step_trans(g0, g2, g3);
            lemma_step_trans(g0, g3, g4);
            lemma_step_trans(g0, g4, g5);
            lemma_step_trans(g0, g5, *self);
            reveal(model_escline);
            assert(self.out@ =~= g0.out@ + model_escline(
                g0.conf,
                g0.rng.seed(),
                g0.rng.pos(),
            ).0);
        }
    }

    // linespace := newline | ws | single-line-comment
    fn linespace(&mut self)
        requires
            self.conf.wf(),
        ensures
            step_ok(*old(self), *final(self)),
            final(self).depth == old(self).depth,
            pinned(
                *old(self),
                *final(self),
                model_linespace(old(self).conf, old(self).rng.seed(), old(self).rng.pos()),
            ),
    {
        let ghost g0 = *self;
        proof {
            reveal_strlit("<LINESPACE>");
            assert(plain("<LINESPACE>"@));
        }
        self.dbg("<LINESPACE>");
        let ghost g1 = *self;
        let k = self.crange(0, 2);
        let ghost g2 = *self;
        if k == 0 {
            self.newline();
        } else if k == 1 {
            self.ws();
        } else {
            self.single_line_comment();
        }
        let ghost g3 = *self;
        proof {
            reveal_strlit("</LINESPACE>");
            assert(plain("</LINESPACE>"@));
        }
        self.dbg("</LINESPACE>");
        proof {
            lemma_step_trans(g1, g2, g3);
            lemma_step_trans(g0, g1, g3);
            lemma_step_trans(g0, g3, *self);
            reveal(model_linespace);
            assert(self.out@ =~= g0.out@ + model_linespace(
                g0.conf,
                g0.rng.seed(),
                g0.rng.pos(),
            ).0);
        }
    }

    // node-space := ws* escline ws* | ws+
    fn node_space(&mut self)
        requires
            self.conf.wf(),
        ensures
            step_ok(*old(self), *final(self)),
            final(self).depth == old(self).depth,
            pinned(
                *old(self),
                *final(self),
                model_node_space(old(self).conf, old(self).rng.seed(), old(self).rng.pos()),
            ),
    {
        let ghost g0 = *self;
        proof {
            reveal_strlit("<NODE-SPACE>");
            assert(plain("<NODE-SPACE>"@));
        }
        self.dbg("<NODE-SPACE>");
        let ghost g1 = *self;
        let k = self.crange(0, 1);
        let ghost g2 = *self;
        if k == 0 {
            self.ws_reps(0);
            let ghost ga = *self;
            self.escline();
            let ghost gb = *self;
            self.ws_reps(0);
            proof {
                lemma_step_trans(g2, ga, gb);
                lemma_step_trans(g2, gb, *self);
            }
        } else {
            self.ws_reps(1);
        }
        let ghost g3 = *self;
        proof {
            reveal_strlit("</NODE-SPACE>");
            assert(plain("</NODE-SPACE>"@));
        }
        self.dbg("</NODE-SPACE>");
        proof {
            lemma_step_trans(g1, g2, g3);
            lemma_step_trans(g0, g1, g3);
            lemma_step_trans(g0, g3, *self);
            reveal(model_node_space);
            assert(self.out@ =~= g0.out@ + model_node_space(
                g0.conf,
                g0.rng.seed(),
                g0.rng.pos(),
            ).0);
        }
    }

    // string := raw-string | escaped-string
    fn string_rule(&mut self)
        ensures
            step_ok(*old(self), *final(self)),
            final(self).depth == old(self).depth,
            pinned(
                *old(self),
                *final(self),
                model_string_rule(old(self).conf, old(self).rng.seed(), old(self).rng.pos()),
            ),
    {
        let ghost g0 = *self;
        proof {
            reveal_strlit("<STRING>");
            assert(plain("<STRING>"@));
        }
        self.dbg("<STRING>");
        let ghost g1 = *self;
        let k = self.crange(0, 1);
        let ghost g2 = *self;
        if k == 0 {
            self.raw_string();
        } else {
            self.escaped_string();
        }
        let ghost g3 = *self;
        proof {
            reveal_strlit("</STRING>");
            assert(plain("</STRING>"@));
        }
        self.dbg("</STRING>");
        proof {
            lemma_step_trans(g1, g2, g3);
            lemma_step_trans(g0, g1, g3);
            lemma_step_trans(g0, g3, *self);
            reveal(model_string_rule);
            assert(self.out@ =~= g0.out@ + model_string_rule(
                g0.conf,
                g0.rng.seed(),
                g0.rng.pos(),
            ).0);
        }
    }

    // node-terminator := single-line-comment | newline | ';'
    fn node_terminator(&mut self)
        requires
            self.conf.wf(),
        ensures
            step_ok(*old(self), *final(self)),
            final(self).depth == old(self).depth,
            pinned(
                *old(self),
                *final(self),
                model_node_terminator(
                    old(self).conf,
                    old(self).rng.seed(),
                    old(self).rng.pos(),
                ),
            ),
    {
        let ghost g0 = *self;
        proof {
            reveal_strlit("<NODE-TERMINATOR>");
            assert(plain("<NODE-TERMINATOR>"@));
        }
        self.dbg("<NODE-TERMINATOR>");
        let ghost g1 = *self;
        let k = self.crange(0, 2);
        let ghost g2 = *self;
        if k == 0 {
            self.single_line_comment();
        } else if k == 1 {
            self.newline();
        } else {
            proof {
                reveal_strlit(";");
                assert(plain(";"@));
            }
            self.wlit(";");
        }
        let ghost g3 = *self;
        proof {
            reveal_strlit("</NODE-TERMINATOR>");
            assert(plain("</NODE-TERMINATOR>"@));
        }
        self.dbg("</NODE-TERMINATOR>");
        proof {
            lemma_step_trans(g1, g2, g3);
            lemma_step_trans(g0, g1, g3);
            lemma_step_trans(g0, g3, *self);
            reveal(model_node_terminator);
            assert(self.out@ =~= g0.out@ + model_node_terminator(
                g0.conf,
                g0.rng.seed(),
                g0.rng.pos(),
            ).0);
        }
    }

    // node-children := ('/-' node-space*)? '{' nodes '}'
    #[verifier::rlimit(100)]
    #[verifier::spinoff_prover]
    fn node_children(&mut self)
        requires
            self.wf(),
        ensures
            step_ok(*old(self), *final(self)),
            final(self).depth == old(self).depth,
            pinned(
                *old(self),
                *final(self),
                model_node_children(
                    old(self).conf,
                    old(self).depth as int,
                    old(self).rng.seed(),
                    old(self).rng.pos(),
                ),
            ),
            !old(self).conf.debug && old(self).depth > old(self).conf.depth_max as u64 ==> (
            exists|a: Seq<char>|
                seg(old(self).out@, final(self).out@) == a + seq!['{', '}']),
            old(self).conf.debug ==> (exists|mid: Seq<char>|
                seg(old(self).out@, final(self).out@) == "<NODE-CHILDREN>"@ + mid
                    + "</NODE-CHILDREN>"@),
        decreases self.conf.depth_max as int + 2 - self.depth as int, 1int,
    {
        let ghost g0 = *self;
        proof {
            reveal_strlit("<NODE-CHILDREN>");
            assert(plain("<NODE-CHILDREN>"@));
        }
        self.dbg("<NODE-CHILDREN>");
        let ghost g1 = *self;
        let c = self.coin();
        let ghost g2 = *self;
        if c {
            proof {
                reveal_strlit("/-");
                assert(plain("/-"@));
            }
            self.wlit("/-");
            let ghost gd = *self;
            self.node_space_reps(0);
            proof {
                lemma_step_trans(g2, gd, *self);
            }
        }
        let ghost g3 = *self;
        self.wraw("{");
        let ghost g4 = *self;
        self.nodes();
        let ghost g5 = *self;
        self.wraw("}");
        proof {
            reveal_strlit("{");
            reveal_strlit("}");
            let mid = seg(g4.out@, g5.out@);
            assert(g5.out@ =~= g4.out@ + mid);
            assert(self.out@ =~= g3.out@ + ("{"@ + mid + "}"@));
            assert("{"@ + mid + "}"@ =~= seq!['{'] + mid + seq!['}']);
            if g0.conf.ascii_only {
                lemma_balanced_wrap(mid);
                assert(is_ascii_chars("{"@)) by {
                    assert("{"@[0] == '{');
                }
                assert(is_ascii_chars("}"@)) by {
                    assert("}"@[0] == '}');
                }
                lemma_ascii_concat("{"@, mid);
                lemma_ascii_concat("{"@ + mid, "}"@);
            }
            lemma_step_append(g3, *self, "{"@ + mid + "}"@);
            lemma_step_trans(g1, g2, g3);
            lemma_step_trans(g1, g3, *self);
        }
        let ghost g6 = *self;
        proof {
            reveal_strlit("</NODE-CHILDREN>");
            assert(plain("</NODE-CHILDREN>"@));
        }
        self.dbg("</NODE-CHILDREN>");
        proof {
            lemma_step_trans(g0, g1, g6);
            lemma_step_trans(g0, g6, *self);
            reveal(model_node_children);
            assert(self.out@ =~= g0.out@ + model_node_children(
                g0.conf,
                g0.depth as int,
                g0.rng.seed(),
                g0.rng.pos(),
            ).0);
            if !g0.conf.debug && g0.depth > g0.conf.depth_max as u64 {
                assert(g5.out == g4.out);
                lemma_prefix_seg(g0.out@, g3.out@);
                assert(self.out@ =~= g0.out@ + (seg(g0.out@, g3.out@) + seq!['{', '}']));
                assert(seg(g0.out@, self.out@) == seg(g0.out@, g3.out@) + seq!['{', '}']);
            }
            if g0.conf.debug {
                lemma_prefix_seg(g1.out@, g6.out@);
                assert(self.out@ =~= g0.out@ + ("<NODE-CHILDREN>"@ + seg(g1.out@, g6.out@)
                    + "</NODE-CHILDREN>"@));
                assert(seg(g0.out@, self.out@) == "<NODE-CHILDREN>"@ + seg(g1.out@, g6.out@)
                    + "</NODE-CHILDREN>"@);
            }
        }
    }

    // node := ('/-' node-space*)? type? identifier
    //         (node-space+ node-prop-or-arg)*
    //         (node-space* node-children ws*)? node-space* node-terminator
    #[verifier::rlimit(60)]
    fn node(&mut self)
        requires
            self.wf(),
        ensures
            step_ok(*old(self), *final(self)),
            final(self).depth == old(self).depth,
            pinned(
                *old(self),
                *final(self),
                model_node(
                    old(self).conf,
                    old(self).depth as int,
                    old(self).rng.seed(),
                    old(self).rng.pos(),
                ),
            ),
        decreases self.conf.depth_max as int + 2 - self.depth as int, 2int,
    {
        let ghost fpu = |c: Configuration, s: u64, p: u128| model_prop_unit(c, s, p);
        let ghost g0 = *self;
        let ghost cnf = g0.conf;
        let ghost sd = g0.rng.seed();
        let ghost p0 = g0.rng.pos();
        let ghost m1 = if cnf.debug { "<NODE>"@ } else { Seq::<char>::empty() };
        let ghost m2 = if cnf.debug { "</NODE>"@ } else { Seq::<char>::empty() };
        let ghost c1m = model_coin(sd, p0);
        let ghost d1 = if c1m.0 {
            ("/-"@ + model_node_space_reps(cnf, sd, c1m.1, 0).0, model_node_space_reps(
                cnf,
                sd,
                c1m.1,
                0,
            ).1)
        } else {
            (Seq::<char>::empty(), c1m.1)
        };
        let ghost c2m = model_coin(sd, d1.1);
        let ghost t = if c2m.0 {
            model_type_rule(cnf, sd, c2m.1)
        } else {
            (Seq::<char>::empty(), c2m.1)
        };
        let ghost idt = model_identifier(cnf, sd, t.1);
        let ghost npm = range_draw(0, cnf.props_or_args_max, sd, idt.1);
        let ghost pr = model_rep(fpu, cnf, sd, npm.1, npm.0 as int);
        let ghost c3m = model_coin(sd, pr.1);
        let ghost ch = if c3m.0 {
            ({
                let w1 = model_node_space_reps(cnf, sd, c3m.1, 0);
                let cc = model_node_children(cnf, g0.depth as int, sd, w1.1);
                let w2 = model_ws_reps(cnf, sd, cc.1, 0);
                (w1.0 + cc.0 + w2.0, w2.1)
            })
        } else {
            (Seq::<char>::empty(), c3m.1)
        };
        let ghost ns = model_node_space_reps(cnf, sd, ch.1, 0);
        let ghost tm = model_node_terminator(cnf, sd, ns.1);
        proof {
            reveal_strlit("<NODE>");
            assert(plain("<NODE>"@));
        }
        self.dbg("<NODE>");
        let ghost g1 = *self;
        proof {
            assert(pinned(g0, g1, (m1, p0))) by {
                if !cnf.debug {
                    assert(g1.out@ =~= g0.out@ + Seq::<char>::empty());
                }
            }
        }
        let c1 = self.coin();
        let ghost g2 = *self;
        if c1 {
            proof {
                reveal_strlit("/-");
                assert(plain("/-"@));
            }
            self.wlit("/-");
            let ghost gd = *self;
            self.node_space_reps(0);
            proof {
                lemma_step_trans(g2, gd, *self);
                assert(self.out@ =~= g1.out@ + ("/-"@ + model_node_space_reps(
                    cnf,
                    sd,
                    c1m.1,
                    0,
                ).0));
            }
        }
        let ghost g3 = *self;
        proof {
            assert(pinned(g1, g3, d1)) by {
                if !c1 {
                    assert(g3.out@ =~= g1.out@ + Seq::<char>::empty());
                }
            }
        }
        let c2 = self.coin();
        let ghost g4 = *self;
        if c2 {
            self.type_rule();
        }
        let ghost g5 = *self;
        proof {
            assert(pinned(g3, g5, t)) by {
                if !c2 {
                    assert(g5.out@ =~= g3.out@ + Seq::<char>::empty());
                }
            }
        }
        self.identifier();
        let ghost g6 = *self;
        proof {
            assert(pinned(g5, g6, idt));
        }
        let np = self.crange(0, self.conf.props_or_args_max);
        let ghost g7 = *self;
        proof {
            assert(g7.out@ + Seq::<char>::empty() =~= g7.out@);
        }
        let mut i: u32 = 0;
        while i < np
            invariant
                step_ok(g7, *self),
                self.depth == g7.depth,
                self.conf == g7.conf,
                i <= np,
                pinned(g7, *self, model_rep(fpu, g7.conf, g7.rng.seed(), g7.rng.pos(), i as int)),
            decreases np as int - i as int,
        {
            let ghost gl = *self;
            self.node_space_reps(1);
            let ghost gm = *self;
            self.node_prop_or_arg();
            proof {
                lemma_step_trans(gl, gm, *self);
                lemma_step_trans(g7, gl, *self);
                reveal(model_prop_unit);
                assert(self.out@ =~= gl.out@ + (model_node_space_reps(
                    gl.conf,
                    gl.rng.seed(),
                    gl.rng.pos(),
                    1,
                ).0 + model_node_prop_or_arg(gm.conf, gm.rng.seed(), gm.rng.pos()).0));
                assert(self.out@ =~= gl.out@ + model_prop_unit(
                    gl.conf,
                    gl.rng.seed(),
                    gl.rng.pos(),
                ).0);
                lemma_model_rep_snoc(fpu, g7.conf, g7.rng.seed(), g7.rng.pos(), i as int);
                assert(g7.out@ + (model_rep(fpu, g7.conf, g7.rng.seed(), g7.rng.pos(), i as int).0
                    + model_prop_unit(gl.conf, gl.rng.seed(), gl.rng.pos()).0) =~= (g7.out@
                    + model_rep(fpu, g7.conf, g7.rng.seed(), g7.rng.pos(), i as int).0)
                    + model_prop_unit(gl.conf, gl.rng.seed(), gl.rng.pos()).0);
            }
            i = i + 1;
        }
        let ghost g8 = *self;
        proof {
            assert(pinned(g6, g8, pr));
        }
        let c3 = self.coin();
        let ghost g9 = *self;
        if c3 {
            self.node_space_reps(0);
            let ghost ga = *self;
            self.node_children();
            let ghost gb = *self;
            self.ws_reps(0);
            proof {
                lemma_step_trans(g9, ga, gb);
                lemma_step_trans(g9, gb, *self);
                assert(self.out@ =~= g8.out@ + ((model_node_space_reps(cnf, sd, c3m.1, 0).0
                    + model_node_children(cnf, g0.depth as int, sd, model_node_space_reps(
                    cnf,
                    sd,
                    c3m.1,
                    0,
                ).1).0) + model_ws_reps(cnf, sd, model_node_children(
                    cnf,
                    g0.depth as int,
                    sd,
                    model_node_space_reps(cnf, sd, c3m.1, 0).1,
                ).1, 0).0));
            }
        }
        let ghost g10 = *self;
        proof {
            assert(pinned(g8, g10, ch)) by {
                if !c3 {
                    assert(g10.out@ =~= g8.out@ + Seq::<char>::empty());
                }
            }
        }
        self.node_space_reps(0);
        let ghost g11 = *self;
        proof {
            assert(pinned(g10, g11, ns));
        }
        self.node_terminator();
        let ghost g12 = *self;
        proof {
            assert(pinned(g11, g12, tm));
        }
        proof {
            reveal_strlit("</NODE>");
            assert(plain("</NODE>"@));
        }
        self.dbg("</NODE>");
        proof {
            lemma_step_trans(g1, g2, g3);
            lemma_step_trans(g1, g3, g4);
            lemma_step_trans(g1, g4, g5);
            lemma_step_trans(g1, g5, g6);
            lemma_step_trans(g1, g6, g7);
            lemma_step_trans(g1, g7, g8);
            lemma_step_trans(g1, g8, g9);
            lemma_step_trans(g1, g9, g10);
            lemma_step_trans(g1, g10, g11);
            lemma_step_trans(g1, g11, g12);
            lemma_step_trans(g0, g1, g12);
            lemma_step_trans(g0, g12, *self);
            assert(pinned(g12, *self, (m2, tm.1))) by {
                if !cnf.debug {
                    assert(self.out@ =~= g12.out@ + Seq::<char>::empty());
                }
            }
            lemma_pinned_seq(g0, g1, g3, (m1, p0), d1);
            lemma_pinned_seq(g0, g3, g5, (m1 + d1.0, d1.1), t);
            lemma_pinned_seq(g0, g5, g6, (m1 + d1.0 + t.0, t.1), idt);
            lemma_pinned_seq(g0, g6, g8, (m1 + d1.0 + t.0 + idt.0, idt.1), pr);
            lemma_pinned_seq(g0, g8, g10, (m1 + d1.0 + t.0 + idt.0 + pr.0, pr.1), ch);
            lemma_pinned_seq(g0, g10, g11, (m1 + d1.0 + t.0 + idt.0 + pr.0 + ch.0, ch.1), ns);
            lemma_pinned_seq(
                g0,
                g11,
                g12,
                (m1 + d1.0 + t.0 + idt.0 + pr.0 + ch.0 + ns.0, ns.1),
                tm,
            );
            lemma_pinned_seq(
                g0,
                g12,
                *self,
                (m1 + d1.0 + t.0 + idt.0 + pr.0 + ch.0 + ns.0 + tm.0, tm.1),
                (m2, tm.1),
            );
            reveal(model_node);
            reveal(model_nodes);
            reveal(model_node_children);
            assert(model_node(cnf, g0.depth as int, sd, p0) == (
                m1 + d1.0 + t.0 + idt.0 + pr.0 + ch.0 + ns.0 + tm.0 + m2,
                tm.1,
            ));
        }
    }

    // nodes := linespace* (node nodes?)? linespace*, cut off beyond the
    // depth bound; the depth counter is restored on exit
    #[verifier::rlimit(80)]
    fn nodes(&mut self)
        requires
            self.wf(),
        ensures
            step_ok(*old(self), *final(self)),
            final(self).depth == old(self).depth,
            old(self).depth > old(self).conf.depth_max as u64 ==> final(self).out == old(
                self,
            ).out,
            pinned(
                *old(self),
                *final(self),
                model_nodes(
                    old(self).conf,
                    old(self).depth as int,
                    old(self).rng.seed(),
                    old(self).rng.pos(),
                ),
            ),
        decreases self.conf.depth_max as int + 2 - self.depth as int, 0int,
    {
        let ghost fl = |c: Configuration, s: u64, p: u128| model_linespace(c, s, p);
        if self.depth > self.conf.depth_max as u64 {
            proof {
                reveal(model_nodes);
                lemma_step_same_out(*self, *self);
                assert(self.out@ + Seq::<char>::empty() =~= self.out@);
            }
            return ;
        }
        let ghost g0 = *self;
        proof {
            reveal_strlit("<NODES>");
            assert(plain("<NODES>"@));
        }
        self.dbg("<NODES>");
        let ghost g1 = *self;
        self.depth = self.depth + 1;
        let ghost g2 = *self;
        proof {
            lemma_step_same_out(g1, g2);
        }
        let nb1 = self.crange(0, self.conf.blank_lines_max);
        let ghost g3 = *self;
        proof {
            assert(g3.out@ + Seq::<char>::empty() =~= g3.out@);
        }
        let mut i: u32 = 0;
        while i < nb1
            invariant
                step_ok(g3, *self),
                self.depth == g3.depth,
                self.conf == g3.conf,
                i <= nb1,
                pinned(g3, *self, model_rep(fl, g3.conf, g3.rng.seed(), g3.rng.pos(), i as int)),
            decreases nb1 as int - i as int,
        {
            let ghost gl = *self;
            self.linespace();
            proof {
                lemma_step_trans(g3, gl, *self);
                lemma_model_rep_snoc(fl, g3.conf, g3.rng.seed(), g3.rng.pos(), i as int);
                assert(g3.out@ + (model_rep(fl, g3.conf, g3.rng.seed(), g3.rng.pos(), i as int).0
                    + model_linespace(gl.conf, gl.rng.seed(), gl.rng.pos()).0) =~= (g3.out@
                    + model_rep(fl, g3.conf, g3.rng.seed(), g3.rng.pos(), i as int).0)
                    + model_linespace(gl.conf, gl.rng.seed(), gl.rng.pos()).0);
            }
            i = i + 1;
        }
        let ghost g4 = *self;
        let nn = self.crange(0, self.conf.nodes_per_child_max);
        let ghost g5 = *self;
        proof {
            assert(g5.out@ + Seq::<char>::empty() =~= g5.out@);
            assert(model_node_list(g5.conf, g5.depth as int, g5.rng.seed(), g5.rng.pos(), 0)
                == (Seq::<char>::empty(), g5.rng.pos()));
        }
        let mut j: u32 = 0;
        while j < nn
            invariant
                step_ok(g5, *self),
                self.depth == g5.depth,
                self.conf == g5.conf,
                j <= nn,
                pinned(
                    g5,
                    *self,
                    model_node_list(
                        g5.conf,
                        g5.depth as int,
                        g5.rng.seed(),
                        g5.rng.pos(),
                        j as int,
                    ),
                ),
            decreases nn as int - j as int,
        {
            let ghost gl = *self;
            self.node();
            proof {
                lemma_step_trans(g5, gl, *self);
                lemma_node_list_snoc(
                    g5.conf,
                    g5.depth as int,
                    g5.rng.seed(),
                    g5.rng.pos(),
                    j as int,
                );
                assert(g5.out@ + (model_node_list(
                    g5.conf,
                    g5.depth as int,
                    g5.rng.seed(),
                    g5.rng.pos(),
                    j as int,
                ).0 + model_node(gl.conf, gl.depth as int, gl.rng.seed(), gl.rng.pos()).0) =~= (
                g5.out@ + model_node_list(
                    g5.conf,
                    g5.depth as int,
                    g5.rng.seed(),
                    g5.rng.pos(),
                    j as int,
                ).0) + model_node(gl.conf, gl.depth as int, gl.rng.seed(), gl.rng.pos()).0);
            }
            j = j + 1;
        }
        let ghost g6 = *self;
        let nb2 = self.crange(0, self.conf.blank_lines_max);
        let ghost g7 = *self;
        proof {
            assert(g7.out@ + Seq::<char>::empty() =~= g7.out@);
        }
        let mut p: u32 = 0;
        while p < nb2
            invariant
                step_ok(g7, *self),
                self.depth == g7.depth,
                self.conf == g7.conf,
                p <= nb2,
                pinned(g7, *self, model_rep(fl, g7.conf, g7.rng.seed(), g7.rng.pos(), p as int)),
            decreases nb2 as int - p as int,
        {
            let ghost gl = *self;
            self.linespace();
            proof {
                lemma_step_trans(g7, gl, *self);
                lemma_model_rep_snoc(fl, g7.conf, g7.rng.seed(), g7.rng.pos(), p as int);
                assert(g7.out@ + (model_rep(fl, g7.conf, g7.rng.seed(), g7.rng.pos(), p as int).0
                    + model_linespace(gl.conf, gl.rng.seed(), gl.rng.pos()).0) =~= (g7.out@
                    + model_rep(fl, g7.conf, g7.rng.seed(), g7.rng.pos(), p as int).0)
                    + model_linespace(gl.conf, gl.rng.seed(), gl.rng.pos()).0);
            }
            p = p + 1;
        }
        let ghost g8 = *self;
        self.depth = self.depth - 1;
        let ghost g9 = *self;
        proof {
            lemma_step_same_out(g8, g9);
        }
        proof {
            reveal_strlit("</NODES>");
            assert(plain("</NODES>"@));
        }
        self.dbg("</NODES>");
        proof {
            lemma_step_trans(g2, g3, g4);
            lemma_step_trans(g2, g4, g5);
            lemma_step_trans(g2, g5, g6);
            lemma_step_trans(g2, g6, g7);
            lemma_step_trans(g2, g7, g8);
            lemma_step_trans(g1, g2, g8);
            lemma_step_trans(g1, g8, g9);
            lemma_step_trans(g0, g1, g9);
            lemma_step_trans(g0, g9, *self);
            reveal(model_nodes);
            assert(self.out@ =~= g0.out@ + model_nodes(
                g0.conf,
                g0.depth as int,
                g0.rng.seed(),
                g0.rng.pos(),
            ).0);
            if g0.conf.debug {
                lemma_prefix_seg(g1.out@, g9.out@);
                assert(self.out@ =~= g0.out@ + ("<NODES>"@ + seg(g1.out@, g9.out@)
                    + "</NODES>"@));
                assert(seg(g0.out@, self.out@) == "<NODES>"@ + seg(g1.out@, g9.out@)
                    + "</NODES>"@);
            }
        }
    }
}

/// Determinism of generation: any two character streams produced for
/// the same configuration and seed are identical, because each equals
/// the one modelled document.  Together with `document`'s contract this
/// says that two independent runs with fixed seed and configuration are
/// byte-identical.
pub proof fn lemma_document_deterministic(
    conf: Configuration,
    seed: u64,
    a: Seq<char>,
    b: Seq<char>,
)
    requires
        a == model_document(conf, seed),
        b == model_document(conf, seed),
    ensures
        a == b,
{
}

/// Generate one complete document for `conf`, drawing every decision
/// from the ChaCha8 stream seeded with `seed`.  The same seed and
/// configuration always yield the same text.  In ASCII mode the result
/// is pure ASCII and its brace characters are balanced.
pub fn document(conf: &Configuration, seed: u64) -> (r: String)
    requires
        conf.wf(),
    ensures
        r@ == model_document(*conf, seed),
        conf.ascii_only ==> is_ascii_chars(r@),
        conf.ascii_only ==> braces_balanced(r@),
{
    let mut ctx = Context {
        conf: *conf,
        out: String::new(),
        rng: Rand::from_seed(seed),
        depth: 0,
    };
    let ghost g0 = ctx;
    ctx.nodes();
    proof {
        assert(seg(g0.out@, ctx.out@) =~= ctx.out@);
        assert(ctx.out@ =~= model_nodes(*conf, 0, seed, 0).0);
    }
    ctx.out
}

} // verus!
