//! Repair of hand-written TOML whose basic strings hold invalid escapes
//! (typically Windows paths such as `"C:\Games\x.exe"`).

use vstd::prelude::*;
use crate::text::{chars_of, push_char};

verus! {

/// The lexical context the rewrite is in.
#[derive(Debug, Clone, Copy, PartialEq, Eq)]
pub enum Scan {
    /// Outside any string or comment.
    Top,
    /// Inside a `#` comment, up to the end of the line.
    Comment,
    /// Inside a `'...'` literal string.
    Literal,
    /// Inside a `'''...'''` multi-line literal string.
    LiteralBlock,
    /// Inside a `"..."` basic string.
    Basic,
    /// Inside a `"""..."""` multi-line basic string.
    BasicBlock,
}

/// The characters that may follow a backslash in a TOML basic string.
pub open spec fn is_valid_escape_spec(c: char) -> bool {
    c == '"' || c == '\\' || c == '/' || c == 'b' || c == 'f' || c == 'n' || c == 'r' || c == 't'
        || c == 'u' || c == 'U'
}

/// Whether `s[i..i+3]` is three times the quote `q`.
pub open spec fn triple_at(s: Seq<char>, i: int, q: char) -> bool {
    0 <= i && i + 2 < s.len() && s[i] == q && s[i + 1] == q && s[i + 2] == q
}

/// Orders the contexts for the rewrite's termination: leaving a comment at
/// its newline hands the same position back to `Top`.
pub open spec fn scan_rank(m: Scan) -> nat {
    match m {
        Scan::Top => 0,
        _ => 1,
    }
}

/// What the rewrite emits for `s[i..]` when it starts there in context `m`.
pub open spec fn rewrite(s: Seq<char>, m: Scan, i: nat) -> Seq<char>
    decreases s.len() - i, scan_rank(m),
{
    if i >= s.len() {
        Seq::empty()
    } else {
        let c = s[i as int];
        match m {
            Scan::Top => {
                if c == '#' {
                    seq![c] + rewrite(s, Scan::Comment, i + 1)
                } else if triple_at(s, i as int, '\'') {
                    seq!['\'', '\'', '\''] + rewrite(s, Scan::LiteralBlock, i + 3)
                } else if c == '\'' {
                    seq![c] + rewrite(s, Scan::Literal, i + 1)
                } else if triple_at(s, i as int, '"') {
                    seq!['"', '"', '"'] + rewrite(s, Scan::BasicBlock, i + 3)
                } else if c == '"' {
                    seq![c] + rewrite(s, Scan::Basic, i + 1)
                } else {
                    seq![c] + rewrite(s, Scan::Top, i + 1)
                }
            },
            Scan::Comment => {
                if c == '\n' {
                    rewrite(s, Scan::Top, i)
                } else {
                    seq![c] + rewrite(s, Scan::Comment, i + 1)
                }
            },
            Scan::Literal => {
                if c == '\'' {
                    seq![c] + rewrite(s, Scan::Top, i + 1)
                } else {
                    seq![c] + rewrite(s, Scan::Literal, i + 1)
                }
            },
            Scan::LiteralBlock => {
                if triple_at(s, i as int, '\'') {
                    seq!['\'', '\'', '\''] + rewrite(s, Scan::Top, i + 3)
                } else {
                    seq![c] + rewrite(s, Scan::LiteralBlock, i + 1)
                }
            },
            Scan::BasicBlock => {
                if triple_at(s, i as int, '"') {
                    seq!['"', '"', '"'] + rewrite(s, Scan::Top, i + 3)
                } else {
                    seq![c] + rewrite(s, Scan::BasicBlock, i + 1)
                }
            },
            Scan::Basic => {
                if c == '"' {
                    seq![c] + rewrite(s, Scan::Top, i + 1)
                } else if c == '\\' {
                    if i + 1 < s.len() && is_valid_escape_spec(s[i + 1int]) {
                        seq!['\\', s[i + 1int]] + rewrite(s, Scan::Basic, i + 2)
                    } else {
                        seq!['\\', '\\'] + rewrite(s, Scan::Basic, i + 1)
                    }
                } else {
                    seq![c] + rewrite(s, Scan::Basic, i + 1)
                }
            },
        }
    }
}

/// The repaired text: `s` with every backslash that starts an invalid escape
/// inside a basic string doubled, and everything else as it was.
pub open spec fn lenient_text(s: Seq<char>) -> Seq<char> {
    rewrite(s, Scan::Top, 0)
}

fn is_valid_escape(c: char) -> (r: bool)
    ensures
        r == is_valid_escape_spec(c),
{
    c == '"' || c == '\\' || c == '/' || c == 'b' || c == 'f' || c == 'n' || c == 'r' || c == 't'
        || c == 'u' || c == 'U'
}

fn triple(chars: &Vec<char>, i: usize, q: char) -> (r: bool)
    ensures
        r == triple_at(chars@, i as int, q),
{
    i < chars.len() && i + 1 < chars.len() && i + 2 < chars.len() && chars[i] == q && chars[i
        + 1] == q && chars[i + 2] == q
}

fn push_three(out: &mut String, q: char)
    ensures
        final(out)@ == old(out)@ + seq![q, q, q],
{
    push_char(out, q);
    push_char(out, q);
    push_char(out, q);
    assert(out@ =~= old(out)@ + seq![q, q, q]);
}

/// Rewrites `raw` so that invalid backslash escapes inside basic strings
/// become literal backslashes; comments, literal strings and multi-line
/// basic strings are copied verbatim.
pub fn lenient_toml(raw: &str) -> (out: String)
    ensures
        out@ == lenient_text(raw@),
{
    let chars = chars_of(raw);
    let n = chars.len();
    let ghost s = chars@;
    let mut out = String::new();
    let mut i: usize = 0;
    while i < n
        invariant
            n == chars@.len(),
            s == chars@,
            i <= n,
            out@ + rewrite(s, Scan::Top, i as nat) == lenient_text(s),
        decreases n - i,
    {
        let c = chars[i];
        if c == '#' {
            // comment: copy to end of line.
            let ghost start = i;
            while i < n && chars[i] != '\n'
                invariant
                    n == chars@.len(),
                    s == chars@,
                    i <= n,
                    start <= i,
                    start < n,
                    s[start as int] == '#',
                    out@ + rewrite(s, Scan::Comment, i as nat) == lenient_text(s),
                decreases n - i,
            {
                let ghost before = out@;
                push_char(&mut out, chars[i]);
                i += 1;
                assert(out@ + rewrite(s, Scan::Comment, i as nat) =~= before + rewrite(
                    s,
                    Scan::Comment,
                    (i - 1) as nat,
                ));
            }
        } else if c == '\'' && triple(&chars, i, '\'') {
            push_three(&mut out, '\'');
            i += 3;
            let ghost entry = i;
            while i < n && !triple(&chars, i, '\'')
                invariant
                    n == chars@.len(),
                    s == chars@,
                    i <= n,
                    entry <= i,
                    out@ + rewrite(s, Scan::LiteralBlock, i as nat) == lenient_text(s),
                decreases n - i,
            {
                let ghost before = out@;
                push_char(&mut out, chars[i]);
                i += 1;
                assert(out@ + rewrite(s, Scan::LiteralBlock, i as nat) =~= before + rewrite(
                    s,
                    Scan::LiteralBlock,
                    (i - 1) as nat,
                ));
            }
            if i < n {
                push_three(&mut out, '\'');
                i += 3;
            }
        } else if c == '\'' {
            push_char(&mut out, '\'');
            i += 1;
            let ghost entry = i;
            while i < n && chars[i] != '\''
                invariant
                    n == chars@.len(),
                    s == chars@,
                    i <= n,
                    entry <= i,
                    out@ + rewrite(s, Scan::Literal, i as nat) == lenient_text(s),
                decreases n - i,
            {
                let ghost before = out@;
                push_char(&mut out, chars[i]);
                i += 1;
                assert(out@ + rewrite(s, Scan::Literal, i as nat) =~= before + rewrite(
                    s,
                    Scan::Literal,
                    (i - 1) as nat,
                ));
            }
            if i < n {
                push_char(&mut out, '\'');
                i += 1;
            }
        } else if c == '"' && triple(&chars, i, '"') {
            // multiline basic strings are rare here; copy verbatim, don't rewrite.
            push_three(&mut out, '"');
            i += 3;
            let ghost entry = i;
            while i < n && !triple(&chars, i, '"')
                invariant
                    n == chars@.len(),
                    s == chars@,
                    i <= n,
                    entry <= i,
                    out@ + rewrite(s, Scan::BasicBlock, i as nat) == lenient_text(s),
                decreases n - i,
            {
                let ghost before = out@;
                push_char(&mut out, chars[i]);
                i += 1;
                assert(out@ + rewrite(s, Scan::BasicBlock, i as nat) =~= before + rewrite(
                    s,
                    Scan::BasicBlock,
                    (i - 1) as nat,
                ));
            }
            if i < n {
                push_three(&mut out, '"');
                i += 3;
            }
        } else if c == '"' {
            // basic string: fix invalid backslash escapes as we copy.
            push_char(&mut out, '"');
            i += 1;
            let ghost entry = i;
            while i < n && chars[i] != '"'
                invariant
                    n == chars@.len(),
                    s == chars@,
                    i <= n,
                    entry <= i,
                    out@ + rewrite(s, Scan::Basic, i as nat) == lenient_text(s),
                decreases n - i,
            {
                let ghost before = out@;
                let ghost start = i;
                if chars[i] == '\\' {
                    if i + 1 < n && is_valid_escape(chars[i + 1]) {
                        // valid escape (incl. \" which is not a closer): keep both.
                        let next = chars[i + 1];
                        push_char(&mut out, '\\');
                        push_char(&mut out, next);
                        i += 2;
                    } else {
                        // invalid escape (e.g. a windows path's \E): double the backslash.
                        push_char(&mut out, '\\');
                        push_char(&mut out, '\\');
                        i += 1;
                    }
                } else {
                    push_char(&mut out, chars[i]);
                    i += 1;
                }
                assert(out@ + rewrite(s, Scan::Basic, i as nat) =~= before + rewrite(
                    s,
                    Scan::Basic,
                    start as nat,
                ));
            }
            if i < n {
                push_char(&mut out, '"');
                i += 1;
            }
        } else {
            let ghost before = out@;
            push_char(&mut out, c);
            i += 1;
            assert(out@ + rewrite(s, Scan::Top, i as nat) =~= before + rewrite(
                s,
                Scan::Top,
                (i - 1) as nat,
            ));
        }
    }
    proof {
        assert(out@ =~= out@ + rewrite(s, Scan::Top, i as nat));
    }
    out
}

} // verus!

verus! {

/// Whether `c` is anything but a backslash.
pub open spec fn not_backslash(c: char) -> bool {
    c != '\\'
}

proof fn lemma_rewrite_backslash_free(s: Seq<char>, m: Scan, i: nat)
    requires
        i <= s.len(),
        forall|k: int| 0 <= k < s.len() ==> s[k] != '\\',
    ensures
        rewrite(s, m, i) == s.skip(i as int),
    decreases s.len() - i, scan_rank(m),
{
    if i < s.len() {
        let c = s[i as int];
        match m {
            Scan::Top => {
                if c == '#' {
                    lemma_rewrite_backslash_free(s, Scan::Comment, i + 1);
                } else if triple_at(s, i as int, '\'') {
                    lemma_rewrite_backslash_free(s, Scan::LiteralBlock, i + 3);
                } else if c == '\'' {
                    lemma_rewrite_backslash_free(s, Scan::Literal, i + 1);
                } else if triple_at(s, i as int, '"') {
                    lemma_rewrite_backslash_free(s, Scan::BasicBlock, i + 3);
                } else if c == '"' {
                    lemma_rewrite_backslash_free(s, Scan::Basic, i + 1);
                } else {
                    lemma_rewrite_backslash_free(s, Scan::Top, i + 1);
                }
            },
            Scan::Comment => {
                if c == '\n' {
                    lemma_rewrite_backslash_free(s, Scan::Top, i);
                } else {
                    lemma_rewrite_backslash_free(s, Scan::Comment, i + 1);
                }
            },
            Scan::Literal => {
                if c == '\'' {
                    lemma_rewrite_backslash_free(s, Scan::Top, i + 1);
                } else {
                    lemma_rewrite_backslash_free(s, Scan::Literal, i + 1);
                }
            },
            Scan::LiteralBlock => {
                if triple_at(s, i as int, '\'') {
                    lemma_rewrite_backslash_free(s, Scan::Top, i + 3);
                } else {
                    lemma_rewrite_backslash_free(s, Scan::LiteralBlock, i + 1);
                }
            },
            Scan::BasicBlock => {
                if triple_at(s, i as int, '"') {
                    lemma_rewrite_backslash_free(s, Scan::Top, i + 3);
                } else {
                    lemma_rewrite_backslash_free(s, Scan::BasicBlock, i + 1);
                }
            },
            Scan::Basic => {
                if c == '"' {
                    lemma_rewrite_backslash_free(s, Scan::Top, i + 1);
                } else {
                    lemma_rewrite_backslash_free(s, Scan::Basic, i + 1);
                }
            },
        }
        assert(rewrite(s, m, i) =~= s.skip(i as int));
    } else {
        assert(s.skip(i as int) =~= Seq::<char>::empty());
    }
}

/// Text without any backslash comes out of the repair exactly as it went in.
pub proof fn lenient_keeps_backslash_free_text(s: Seq<char>)
    requires
        forall|k: int| 0 <= k < s.len() ==> s[k] != '\\',
    ensures
        lenient_text(s) == s,
{
    lemma_rewrite_backslash_free(s, Scan::Top, 0);
    assert(s.skip(0) =~= s);
}

/// One step of the rewrite at `i < s.len()` in context `m`: what it emits,
/// the context it moves to, and where it goes on.
pub open spec fn step(s: Seq<char>, m: Scan, i: nat) -> (Seq<char>, Scan, nat) {
    let c = s[i as int];
    match m {
        Scan::Top => {
            if c == '#' {
                (seq![c], Scan::Comment, i + 1)
            } else if triple_at(s, i as int, '\'') {
                (seq!['\'', '\'', '\''], Scan::LiteralBlock, i + 3)
            } else if c == '\'' {
                (seq![c], Scan::Literal, i + 1)
            } else if triple_at(s, i as int, '"') {
                (seq!['"', '"', '"'], Scan::BasicBlock, i + 3)
            } else if c == '"' {
                (seq![c], Scan::Basic, i + 1)
            } else {
                (seq![c], Scan::Top, i + 1)
            }
        },
        Scan::Comment => {
            if c == '\n' {
                (Seq::empty(), Scan::Top, i)
            } else {
                (seq![c], Scan::Comment, i + 1)
            }
        },
        Scan::Literal => {
            if c == '\'' {
                (seq![c], Scan::Top, i + 1)
            } else {
                (seq![c], Scan::Literal, i + 1)
            }
        },
        Scan::LiteralBlock => {
            if triple_at(s, i as int, '\'') {
                (seq!['\'', '\'', '\''], Scan::Top, i + 3)
            } else {
                (seq![c], Scan::LiteralBlock, i + 1)
            }
        },
        Scan::BasicBlock => {
            if triple_at(s, i as int, '"') {
                (seq!['"', '"', '"'], Scan::Top, i + 3)
            } else {
                (seq![c], Scan::BasicBlock, i + 1)
            }
        },
        Scan::Basic => {
            if c == '"' {
                (seq![c], Scan::Top, i + 1)
            } else if c == '\\' {
                if i + 1 < s.len() && is_valid_escape_spec(s[i + 1int]) {
                    (seq!['\\', s[i + 1int]], Scan::Basic, i + 2)
                } else {
                    (seq!['\\', '\\'], Scan::Basic, i + 1)
                }
            } else {
                (seq![c], Scan::Basic, i + 1)
            }
        },
    }
}

proof fn lemma_step(s: Seq<char>, m: Scan, i: nat)
    requires
        i < s.len(),
    ensures
        rewrite(s, m, i) == step(s, m, i).0 + rewrite(s, step(s, m, i).1, step(s, m, i).2),
        step(s, m, i).2 <= s.len(),
        step(s, m, i).2 > i || (step(s, m, i).2 == i && scan_rank(step(s, m, i).1) < scan_rank(
            m,
        )),
        step(s, m, i).0.filter(|c: char| not_backslash(c)) == s.subrange(
            i as int,
            step(s, m, i).2 as int,
        ).filter(|c: char| not_backslash(c)),
{
    reveal_with_fuel(Seq::filter, 4);
    let j = step(s, m, i).2;
    assert(step(s, m, i).0.filter(|c: char| not_backslash(c)) =~= s.subrange(i as int, j as int).filter(
        |c: char| not_backslash(c),
    ));
}

proof fn lemma_rewrite_only_adds_backslashes(s: Seq<char>, m: Scan, i: nat)
    requires
        i <= s.len(),
    ensures
        rewrite(s, m, i).filter(|c: char| not_backslash(c)) == s.skip(i as int).filter(
            |c: char| not_backslash(c),
        ),
    decreases s.len() - i, scan_rank(m),
{
    let p = |c: char| not_backslash(c);
    if i < s.len() {
        lemma_step(s, m, i);
        let (piece, m2, j) = step(s, m, i);
        lemma_rewrite_only_adds_backslashes(s, m2, j);
        assert(s.skip(i as int) =~= s.subrange(i as int, j as int) + s.skip(j as int));
        Seq::filter_distributes_over_add(piece, rewrite(s, m2, j), p);
        Seq::filter_distributes_over_add(s.subrange(i as int, j as int), s.skip(j as int), p);
    } else {
        assert(s.skip(i as int) =~= Seq::<char>::empty());
        reveal_with_fuel(Seq::filter, 1);
    }
}

/// The repair only ever inserts backslashes: dropping every backslash from
/// its output and from its input leaves the same text.
pub proof fn lenient_only_adds_backslashes(s: Seq<char>)
    ensures
        lenient_text(s).filter(|c: char| not_backslash(c)) == s.filter(|c: char| not_backslash(c)),
{
    lemma_rewrite_only_adds_backslashes(s, Scan::Top, 0);
    assert(s.skip(0) =~= s);
}

} // verus!

verus! {

/// What `parse_lenient` returns for `raw` when the strict parse of `raw`
/// gave `strict` and, where that failed, the parse of the repaired text gave
/// `second`.
pub open spec fn lenient_outcome<T, E>(strict: Result<T, E>, second: Result<T, E>) -> Result<
    T,
    E,
> {
    match strict {
        Ok(v) => Ok(v),
        Err(e) => match second {
            Ok(v) => Ok(v),
            Err(_) => Err(e),
        },
    }
}

/// Whether `r` is what the lenient parse of `text` can give: the result of
/// `parse` on `text` where that succeeded, else the result of `parse` on the
/// repaired text where that succeeded, else the first error.
pub open spec fn lenient_parse_gave<T, E, F: Fn(&str) -> Result<T, E>>(
    parse: F,
    text: Seq<char>,
    r: Result<T, E>,
) -> bool {
    exists|first: &str, strict: Result<T, E>|
        #![trigger parse.ensures((first,), strict)]
        first@ == text && parse.ensures((first,), strict) && (strict is Ok ==> r == strict) && (
        strict is Err ==> exists|fixed: &str, second: Result<T, E>|
            #![trigger parse.ensures((fixed,), second)]
            fixed@ == lenient_text(text) && parse.ensures((fixed,), second) && r
                == lenient_outcome(strict, second))
}

/// Parses `raw` with `parse`; where that fails, parses the repaired text
/// `lenient_toml(raw)` instead, and where that fails too, reports the error
/// of the first, strict attempt.
pub fn parse_lenient<T, E, F: Fn(&str) -> Result<T, E>>(raw: &str, parse: F) -> (r: Result<T, E>)
    requires
        forall|s: &str| parse.requires((s,)),
    ensures
        lenient_parse_gave(parse, raw@, r),
{
    match parse(raw) {
        Ok(config) => Ok(config),
        Err(strict_err) => {
            let fixed = lenient_toml(raw);
            let second = parse(fixed.as_str());
            match second {
                Ok(config) => Ok(config),
                Err(_) => Err(strict_err),
            }
        },
    }
}

} // verus!

verus! {

proof fn lemma_shift(a: Seq<char>, b: Seq<char>, m: Scan, k: nat)
    requires
        k <= b.len(),
    ensures
        rewrite(a + b, m, (a.len() + k) as nat) == rewrite(b, m, k),
    decreases b.len() - k, scan_rank(m),
{
    let s = a + b;
    let i = (a.len() + k) as nat;
    if k < b.len() {
        assert(s[i + 2int] == b[k + 2int] || i + 2 >= s.len());
        assert(triple_at(s, i as int, '\'') == triple_at(b, k as int, '\''));
        assert(triple_at(s, i as int, '"') == triple_at(b, k as int, '"'));
        assert(s[i as int] == b[k as int]);
        assert(i + 1 < s.len() ==> s[i + 1int] == b[k + 1int]);
        lemma_step(s, m, i);
        lemma_step(b, m, k);
        let (p, m2, j) = step(b, m, k);
        assert(step(s, m, i) == (p, m2, (a.len() + j) as nat));
        lemma_shift(a, b, m2, j);
    }
}

proof fn lemma_head(s: Seq<char>, m: Scan, i: nat)
    requires
        i < s.len(),
    ensures
        rewrite(s, m, i).len() > 0,
        rewrite(s, m, i)[0] == s[i as int],
    decreases scan_rank(m),
{
    lemma_step(s, m, i);
    let (p, m2, j) = step(s, m, i);
    if p.len() == 0 {
        lemma_head(s, m2, j);
    }
}

/// Rescanning the output of one step, followed by the rest of the output,
/// takes the same step.
proof fn lemma_rescan_step(s: Seq<char>, m: Scan, i: nat)
    requires
        i < s.len(),
    ensures
        ({
            let (p, m2, j) = step(s, m, i);
            let o = p + rewrite(s, m2, j);
            o.len() > 0 && step(o, m, 0) == (p, m2, p.len())
        }),
{
    lemma_step(s, m, i);
    let (p, m2, j) = step(s, m, i);
    let r = rewrite(s, m2, j);
    let o = p + r;
    lemma_head(s, m, i);
    if j < s.len() {
        lemma_head(s, m2, j);
        lemma_step(s, m2, j);
        let (p2, m3, j3) = step(s, m2, j);
        if j3 < s.len() {
            lemma_head(s, m3, j3);
        }
        assert(r == p2 + rewrite(s, m3, j3));
        if p2.len() == 1 && j3 < s.len() {
            assert(r[1] == s[j3 as int]);
        }
    }
    assert(o[0] == s[i as int]);
    match m {
        Scan::Top => {
            if s[i as int] == '#' {
            } else if triple_at(s, i as int, '\'') {
                assert(triple_at(o, 0, '\''));
            } else if s[i as int] == '\'' {
                assert(!triple_at(o, 0, '\''));
            } else if triple_at(s, i as int, '"') {
                assert(triple_at(o, 0, '"'));
            } else if s[i as int] == '"' {
                assert(!triple_at(o, 0, '"'));
            } else {
            }
        },
        Scan::Comment => {},
        Scan::Literal => {},
        Scan::LiteralBlock => {
            if triple_at(s, i as int, '\'') {
                assert(triple_at(o, 0, '\''));
            } else {
                assert(!triple_at(o, 0, '\''));
            }
        },
        Scan::BasicBlock => {
            if triple_at(s, i as int, '"') {
                assert(triple_at(o, 0, '"'));
            } else {
                assert(!triple_at(o, 0, '"'));
            }
        },
        Scan::Basic => {
            if s[i as int] == '\\' {
                assert(o[1] == p[1]);
            }
        },
    }
}

proof fn lemma_idempotent(s: Seq<char>, m: Scan, i: nat)
    requires
        i <= s.len(),
    ensures
        rewrite(rewrite(s, m, i), m, 0) == rewrite(s, m, i),
    decreases s.len() - i, scan_rank(m),
{
    if i < s.len() {
        lemma_step(s, m, i);
        let (p, m2, j) = step(s, m, i);
        let r = rewrite(s, m2, j);
        let o = p + r;
        lemma_idempotent(s, m2, j);
        lemma_rescan_step(s, m, i);
        lemma_step(o, m, 0);
        lemma_shift(p, r, m2, 0);
        assert(rewrite(o, m, 0) == p + rewrite(o, m2, p.len()));
    } else {
        assert(rewrite(s, m, i) == Seq::<char>::empty());
    }
}

/// Repairing twice gives what repairing once gives: the repaired text has
/// no invalid escape left, and nothing else in it is touched again.
pub proof fn lenient_is_idempotent(s: Seq<char>)
    ensures
        lenient_text(lenient_text(s)) == lenient_text(s),
{
    lemma_idempotent(s, Scan::Top, 0);
}

} // verus!

verus! {

/// Whether `parse` gives one answer per text: equal texts, equal results.
pub open spec fn parse_is_function<T, E, F: Fn(&str) -> Result<T, E>>(parse: F) -> bool {
    forall|s1: &str, s2: &str, r1: Result<T, E>, r2: Result<T, E>|
        #![trigger parse.ensures((s1,), r1), parse.ensures((s2,), r2)]
        s1@ == s2@ && parse.ensures((s1,), r1) && parse.ensures((s2,), r2) ==> r1 == r2
}

/// For a parse that gives one answer per text, the lenient parse of `text`
/// is the strict result `strict` where that succeeds, else the result
/// `second` of parsing the repaired text where that succeeds, else `strict`.
pub proof fn lenient_parse_is_determined<T, E, F: Fn(&str) -> Result<T, E>>(
    parse: F,
    text: Seq<char>,
    r: Result<T, E>,
    first: &str,
    strict: Result<T, E>,
    fixed: &str,
    second: Result<T, E>,
)
    requires
        parse_is_function(parse),
        lenient_parse_gave(parse, text, r),
        first@ == text,
        parse.ensures((first,), strict),
        fixed@ == lenient_text(text),
        parse.ensures((fixed,), second),
    ensures
        r == lenient_outcome(strict, second),
{
    let (f1, s1) = choose|f1: &str, s1: Result<T, E>|
        #![trigger parse.ensures((f1,), s1)]
        f1@ == text && parse.ensures((f1,), s1) && (s1 is Ok ==> r == s1) && (s1 is Err
            ==> exists|fx: &str, sc: Result<T, E>|
            #![trigger parse.ensures((fx,), sc)]
            fx@ == lenient_text(text) && parse.ensures((fx,), sc) && r == lenient_outcome(
                s1,
                sc,
            ));
    assert(s1 == strict);
    if s1 is Err {
        let (fx, sc) = choose|fx: &str, sc: Result<T, E>|
            #![trigger parse.ensures((fx,), sc)]
            fx@ == lenient_text(text) && parse.ensures((fx,), sc) && r == lenient_outcome(s1, sc);
        assert(sc == second);
    }
}

/// For a parse that gives one answer per text, the lenient parse gives one
/// answer per text too.
pub proof fn lenient_parse_is_function<T, E, F: Fn(&str) -> Result<T, E>>(
    parse: F,
    text: Seq<char>,
    r1: Result<T, E>,
    r2: Result<T, E>,
)
    requires
        parse_is_function(parse),
        lenient_parse_gave(parse, text, r1),
        lenient_parse_gave(parse, text, r2),
    ensures
        r1 == r2,
{
    let (f1, s1) = choose|f1: &str, s1: Result<T, E>|
        #![trigger parse.ensures((f1,), s1)]
        f1@ == text && parse.ensures((f1,), s1) && (s1 is Ok ==> r1 == s1) && (s1 is Err
            ==> exists|fx: &str, sc: Result<T, E>|
            #![trigger parse.ensures((fx,), sc)]
            fx@ == lenient_text(text) && parse.ensures((fx,), sc) && r1 == lenient_outcome(
                s1,
                sc,
            ));
    if s1 is Err {
        let (fx, sc) = choose|fx: &str, sc: Result<T, E>|
            #![trigger parse.ensures((fx,), sc)]
            fx@ == lenient_text(text) && parse.ensures((fx,), sc) && r1 == lenient_outcome(s1, sc);
        lenient_parse_is_determined(parse, text, r2, f1, s1, fx, sc);
    } else {
        let (f2, s2) = choose|f2: &str, s2: Result<T, E>|
            #![trigger parse.ensures((f2,), s2)]
            f2@ == text && parse.ensures((f2,), s2) && (s2 is Ok ==> r2 == s2) && (s2 is Err
                ==> exists|fx: &str, sc: Result<T, E>|
                #![trigger parse.ensures((fx,), sc)]
                fx@ == lenient_text(text) && parse.ensures((fx,), sc) && r2 == lenient_outcome(
                    s2,
                    sc,
                ));
        assert(s1 == s2);
    }
}

} // verus!

verus! {

proof fn lemma_comment_run(s: Seq<char>, i: nat, end: nat)
    requires
        i <= end < s.len(),
        s[end as int] == '\n',
        forall|k: int| i <= k < end ==> s[k] != '\n',
    ensures
        rewrite(s, Scan::Comment, i) == s.subrange(i as int, end as int) + rewrite(s, Scan::Top, end),
    decreases end - i,
{
    if i < end {
        lemma_comment_run(s, i + 1, end);
        assert(s.subrange(i as int, end as int) =~= seq![s[i as int]] + s.subrange(i + 1int, end as int));
    } else {
        assert(s.subrange(i as int, end as int) =~= Seq::<char>::empty());
    }
}

/// Whether `c` opens a comment or a string at the top level.
pub open spec fn is_opener(c: char) -> bool {
    c == '#' || c == '\'' || c == '"'
}

proof fn lemma_plain_run(s: Seq<char>, i: nat, end: nat)
    requires
        i <= end <= s.len(),
        forall|k: int| i <= k < end ==> !is_opener(#[trigger] s[k]),
    ensures
        rewrite(s, Scan::Top, i) == s.subrange(i as int, end as int) + rewrite(s, Scan::Top, end),
    decreases end - i,
{
    if i < end {
        assert(!is_opener(s[i as int]));
        lemma_plain_run(s, i + 1, end);
        assert(s.subrange(i as int, end as int) =~= seq![s[i as int]] + s.subrange(i + 1int, end as int));
    } else {
        assert(s.subrange(i as int, end as int) =~= Seq::<char>::empty());
    }
}

proof fn lemma_literal_run(s: Seq<char>, i: nat, end: nat)
    requires
        i <= end <= s.len(),
        forall|k: int| i <= k < end ==> s[k] != '\'',
    ensures
        rewrite(s, Scan::Literal, i) == s.subrange(i as int, end as int) + rewrite(
            s,
            Scan::Literal,
            end,
        ),
    decreases end - i,
{
    if i < end {
        lemma_literal_run(s, i + 1, end);
        assert(s.subrange(i as int, end as int) =~= seq![s[i as int]] + s.subrange(i + 1int, end as int));
    } else {
        assert(s.subrange(i as int, end as int) =~= Seq::<char>::empty());
    }
}

/// `w` with every backslash written twice.
pub open spec fn doubled(w: Seq<char>) -> Seq<char>
    decreases w.len(),
{
    if w.len() == 0 {
        Seq::empty()
    } else {
        (if w[0] == '\\' {
            seq!['\\', '\\']
        } else {
            seq![w[0]]
        }) + doubled(w.drop_first())
    }
}

/// Whether every backslash of `w` is followed, inside `w`, by a character
/// that cannot follow a backslash in a TOML basic string.
pub open spec fn only_invalid_escapes(w: Seq<char>) -> bool {
    forall|k: int|
        0 <= k < w.len() && #[trigger] w[k] == '\\' ==> k + 1 < w.len() && !is_valid_escape_spec(
            w[k + 1],
        )
}

proof fn lemma_basic_run(s: Seq<char>, i: nat, end: nat)
    requires
        i <= end <= s.len(),
        forall|k: int| i <= k < end ==> s[k] != '"',
        only_invalid_escapes(s.subrange(i as int, end as int)),
    ensures
        rewrite(s, Scan::Basic, i) == doubled(s.subrange(i as int, end as int)) + rewrite(
            s,
            Scan::Basic,
            end,
        ),
    decreases end - i,
{
    let w = s.subrange(i as int, end as int);
    if i < end {
        assert(w.drop_first() =~= s.subrange(i + 1int, end as int));
        assert(w[0] == s[i as int]);
        assert forall|k: int|
            0 <= k < w.drop_first().len() && #[trigger] w.drop_first()[k] == '\\' implies k + 1
            < w.drop_first().len() && !is_valid_escape_spec(w.drop_first()[k + 1]) by {
            assert(w[k + 1] == '\\');
        }
        lemma_basic_run(s, i + 1, end);
        if s[i as int] == '\\' {
            assert(w[0] == '\\');
            assert(i + 1 < end);
            assert(s[i + 1int] == w[1]);
        }
    } else {
        assert(w =~= Seq::<char>::empty());
    }
}

/// A comment line ends at its newline: whatever the comment holds, it is
/// copied as it is and the text after the line is repaired as if the line
/// were not there.
pub proof fn comment_line_ends_at_newline(c: Seq<char>, t: Seq<char>)
    requires
        c.len() > 0,
        c[0] == '#',
        forall|k: int| 0 <= k < c.len() ==> c[k] != '\n',
    ensures
        lenient_text(c + seq!['\n'] + t) == c + seq!['\n'] + lenient_text(t),
{
    let a = c + seq!['\n'];
    let s = a + t;
    assert(s =~= c + seq!['\n'] + t);
    assert(s[0] == '#');
    assert(rewrite(s, Scan::Top, 0) == seq!['#'] + rewrite(s, Scan::Comment, 1));
    lemma_comment_run(s, 1, c.len());
    assert(s[c.len() as int] == '\n');
    assert(!is_opener(s[c.len() as int]));
    assert(rewrite(s, Scan::Top, c.len()) == seq!['\n'] + rewrite(s, Scan::Top, a.len()));
    lemma_shift(a, t, Scan::Top, 0);
    assert(s.subrange(1, c.len() as int) =~= c.drop_first());
    assert(seq!['#'] + c.drop_first() =~= c);
    assert(lenient_text(s) =~= c + seq!['\n'] + lenient_text(t));
}

/// Text that opens no comment or string (no `#`, quote or apostrophe) is
/// copied as it is, backslashes included, and does not change how the text
/// after it is repaired.
pub proof fn plain_text_is_kept(k: Seq<char>, t: Seq<char>)
    requires
        forall|i: int| 0 <= i < k.len() ==> !is_opener(#[trigger] k[i]),
    ensures
        lenient_text(k + t) == k + lenient_text(t),
{
    let s = k + t;
    assert forall|i: int| 0 <= i < k.len() implies !is_opener(#[trigger] s[i]) by {
        assert(s[i] == k[i]);
    }
    lemma_plain_run(s, 0, k.len());
    assert(s.subrange(0, k.len() as int) =~= k);
    lemma_shift(k, t, Scan::Top, 0);
}

/// A basic string whose backslashes all start invalid escapes (such as the
/// Windows path in `"C:\Games\x.exe"`) has every backslash doubled, and the
/// text after it is repaired as if it stood alone.
pub proof fn basic_string_backslashes_doubled(w: Seq<char>, t: Seq<char>)
    requires
        w.len() > 0,
        forall|k: int| 0 <= k < w.len() ==> w[k] != '"',
        only_invalid_escapes(w),
    ensures
        lenient_text(seq!['"'] + w + seq!['"'] + t) == seq!['"'] + doubled(w) + seq!['"']
            + lenient_text(t),
{
    let a = seq!['"'] + w + seq!['"'];
    let s = a + t;
    let n: int = w.len() as int;
    assert(s =~= seq!['"'] + w + seq!['"'] + t);
    assert(s[1] == w[0]);
    assert(!triple_at(s, 0, '"'));
    assert(rewrite(s, Scan::Top, 0) == seq!['"'] + rewrite(s, Scan::Basic, 1));
    assert(s.subrange(1, n + 1) =~= w);
    assert forall|k: int| 1 <= k < n + 1 implies s[k] != '"' by {
        assert(s[k] == w[k - 1]);
    }
    lemma_basic_run(s, 1, (n + 1) as nat);
    assert(s[n + 1] == '"');
    assert(rewrite(s, Scan::Basic, (n + 1) as nat) == seq!['"'] + rewrite(s, Scan::Top, a.len()));
    lemma_shift(a, t, Scan::Top, 0);
    assert(lenient_text(s) =~= seq!['"'] + doubled(w) + seq!['"'] + lenient_text(t));
}

/// A literal string is copied as it is, backslashes included, and the text
/// after it is repaired as if it stood alone.
pub proof fn literal_string_is_kept(w: Seq<char>, t: Seq<char>)
    requires
        w.len() > 0,
        forall|k: int| 0 <= k < w.len() ==> w[k] != '\'',
    ensures
        lenient_text(seq!['\''] + w + seq!['\''] + t) == seq!['\''] + w + seq!['\'']
            + lenient_text(t),
{
    let a = seq!['\''] + w + seq!['\''];
    let s = a + t;
    let n: int = w.len() as int;
    assert(s =~= seq!['\''] + w + seq!['\''] + t);
    assert(s[1] == w[0]);
    assert(!triple_at(s, 0, '\''));
    assert(rewrite(s, Scan::Top, 0) == seq!['\''] + rewrite(s, Scan::Literal, 1));
    assert(s.subrange(1, n + 1) =~= w);
    assert forall|k: int| 1 <= k < n + 1 implies s[k] != '\'' by {
        assert(s[k] == w[k - 1]);
    }
    lemma_literal_run(s, 1, (n + 1) as nat);
    assert(s[n + 1] == '\'');
    assert(rewrite(s, Scan::Literal, (n + 1) as nat) == seq!['\''] + rewrite(s, Scan::Top, a.len()));
    lemma_shift(a, t, Scan::Top, 0);
    assert(lenient_text(s) =~= seq!['\''] + w + seq!['\''] + lenient_text(t));
}

} // verus!
