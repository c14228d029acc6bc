//! Shared parsing utilities: the error taxonomy, whitespace handling, the
//! bracket-balance scanner and the escape-aware argument splitter that every
//! higher-level parser in the crate builds on, and decimal number literals.
//!
//! Text is modelled as a sequence of characters; whitespace means the ASCII
//! whitespace characters. Number literals are plain signed decimals, parsed
//! exactly into fixed point (digits past the sixth fractional place are
//! dropped).
use vstd::prelude::*;
use vstd::string::{StrSliceExecFns, StringExecFns};
use crate::fixed::{Fx, sat};

verus! {

/// Why a parse failed. Each parser fails fast: the first error found is
/// returned and no partial structure is kept.
#[derive(Debug, Clone, PartialEq, Eq)]
pub enum ParseErr {
    EarlyCloseBracket,
    NoCloseBracket,
    NoOpenBracket,
    NotEnoughArgs,
    ToManyArgs,
    InvalidReqOps,
    InvalidPrefix(String),
    InvalidColliderType(String),
    InvalidNumber,
    InvalidComparison,
    InvalidColour,
}

/// The mathematical image of a [`ParseErr`].
pub enum ParseErrView {
    EarlyCloseBracket,
    NoCloseBracket,
    NoOpenBracket,
    NotEnoughArgs,
    ToManyArgs,
    InvalidReqOps,
    InvalidPrefix(Seq<char>),
    InvalidColliderType(Seq<char>),
    InvalidNumber,
    InvalidComparison,
    InvalidColour,
}

impl View for ParseErr {
    type V = ParseErrView;

    open spec fn view(&self) -> ParseErrView {
        match self {
            ParseErr::EarlyCloseBracket => ParseErrView::EarlyCloseBracket,
            ParseErr::NoCloseBracket => ParseErrView::NoCloseBracket,
            ParseErr::NoOpenBracket => ParseErrView::NoOpenBracket,
            ParseErr::NotEnoughArgs => ParseErrView::NotEnoughArgs,
            ParseErr::ToManyArgs => ParseErrView::ToManyArgs,
            ParseErr::InvalidReqOps => ParseErrView::InvalidReqOps,
            ParseErr::InvalidPrefix(s) => ParseErrView::InvalidPrefix(s@),
            ParseErr::InvalidColliderType(s) => ParseErrView::InvalidColliderType(s@),
            ParseErr::InvalidNumber => ParseErrView::InvalidNumber,
            ParseErr::InvalidComparison => ParseErrView::InvalidComparison,
            ParseErr::InvalidColour => ParseErrView::InvalidColour,
        }
    }
}

/// The whitespace characters this format recognises.
pub open spec fn spec_is_space(c: char) -> bool {
    c == ' ' || c == '\t' || c == '\n' || c == '\r'
}

pub fn is_space(c: char) -> (r: bool)
    ensures
        r == spec_is_space(c),
{
    c == ' ' || c == '\t' || c == '\n' || c == '\r'
}

/// A sequence without its leading whitespace.
pub open spec fn spec_trim_start(s: Seq<char>) -> Seq<char>
    decreases s.len(),
{
    if s.len() > 0 && spec_is_space(s[0]) {
        spec_trim_start(s.drop_first())
    } else {
        s
    }
}

/// A sequence without its trailing whitespace.
pub open spec fn spec_trim_end(s: Seq<char>) -> Seq<char>
    decreases s.len(),
{
    if s.len() > 0 && spec_is_space(s.last()) {
        spec_trim_end(s.drop_last())
    } else {
        s
    }
}

/// A sequence without leading or trailing whitespace.
pub open spec fn spec_trim(s: Seq<char>) -> Seq<char> {
    spec_trim_end(spec_trim_start(s))
}

pub proof fn lemma_trim_start_len(s: Seq<char>)
    ensures
        spec_trim_start(s).len() <= s.len(),
    decreases s.len(),
{
    if s.len() > 0 && spec_is_space(s[0]) {
        lemma_trim_start_len(s.drop_first());
    }
}

pub proof fn lemma_trim_end_len(s: Seq<char>)
    ensures
        spec_trim_end(s).len() <= s.len(),
    decreases s.len(),
{
    if s.len() > 0 && spec_is_space(s.last()) {
        lemma_trim_end_len(s.drop_last());
    }
}

pub proof fn lemma_trim_len(s: Seq<char>)
    ensures
        spec_trim(s).len() <= s.len(),
{
    lemma_trim_start_len(s);
    lemma_trim_end_len(spec_trim_start(s));
}

/// Trimming a prefix of spaces off the front does not change the result.
proof fn lemma_trim_start_skip(s: Seq<char>, i: int)
    requires
        0 <= i < s.len(),
        spec_is_space(s[i]),
        forall|k: int| 0 <= k < i ==> spec_is_space(s[k]),
    ensures
        spec_trim_start(s.subrange(i, s.len() as int)) == spec_trim_start(
            s.subrange(i + 1, s.len() as int),
        ),
{
    assert(s.subrange(i, s.len() as int).drop_first() =~= s.subrange(
        i + 1,
        s.len() as int,
    ));
}

/// Whole-string trim of a text slice.
pub fn trim_of(s: &str) -> (r: String)
    ensures
        r@ == spec_trim(s@),
{
    let n = s.unicode_len();
    let mut i: usize = 0;
    proof {
        assert(s@.subrange(0, s@.len() as int) =~= s@);
    }
    while i < n && is_space(s.get_char(i))
        invariant
            0 <= i <= n,
            n == s@.len(),
            spec_trim_start(s@) == spec_trim_start(s@.subrange(i as int, n as int)),
            forall|k: int| 0 <= k < i ==> spec_is_space(s@[k]),
        decreases n - i,
    {
        proof {
            lemma_trim_start_skip(s@, i as int);
        }
        i = i + 1;
    }
    proof {
        if i < n {
            assert(spec_trim_start(s@.subrange(i as int, n as int)) =~= s@.subrange(
                i as int,
                n as int,
            ));
        } else {
            assert(s@.subrange(i as int, n as int) =~= Seq::<char>::empty());
        }
    }
    let mut j: usize = n;
    while j > i && is_space(s.get_char(j - 1))
        invariant
            i <= j <= n,
            n == s@.len(),
            spec_trim_start(s@) == s@.subrange(i as int, n as int),
            forall|k: int| 0 <= k < i ==> spec_is_space(s@[k]),
            spec_trim_end(s@.subrange(i as int, n as int)) == spec_trim_end(
                s@.subrange(i as int, j as int),
            ),
        decreases j,
    {
        proof {
            assert(s@.subrange(i as int, j as int).drop_last() =~= s@.subrange(
                i as int,
                j as int - 1,
            ));
        }
        j = j - 1;
    }
    proof {
        if j > i {
            assert(spec_trim_end(s@.subrange(i as int, j as int)) =~= s@.subrange(
                i as int,
                j as int,
            ));
        } else {
            assert(s@.subrange(i as int, j as int) =~= Seq::<char>::empty());
        }
    }
    let piece = s.substring_char(i, j);
    piece.to_owned()
}

/// Leading-whitespace trim of a text slice.
pub fn trim_start_of(s: &str) -> (r: String)
    ensures
        r@ == spec_trim_start(s@),
{
    let n = s.unicode_len();
    let mut i: usize = 0;
    proof {
        assert(s@.subrange(0, s@.len() as int) =~= s@);
    }
    while i < n && is_space(s.get_char(i))
        invariant
            0 <= i <= n,
            n == s@.len(),
            spec_trim_start(s@) == spec_trim_start(s@.subrange(i as int, n as int)),
            forall|k: int| 0 <= k < i ==> spec_is_space(s@[k]),
        decreases n - i,
    {
        proof {
            lemma_trim_start_skip(s@, i as int);
        }
        i = i + 1;
    }
    proof {
        if i < n {
            assert(spec_trim_start(s@.subrange(i as int, n as int)) =~= s@.subrange(
                i as int,
                n as int,
            ));
        } else {
            assert(s@.subrange(i as int, n as int) =~= Seq::<char>::empty());
        }
    }
    s.substring_char(i, n).to_owned()
}

/// ASCII lowercase of one character.
pub open spec fn spec_lower_char(c: char) -> char {
    if 'A' <= c && c <= 'Z' {
        (((c as u32) + 32) as u8) as char
    } else {
        c
    }
}

/// ASCII lowercase of a sequence.
pub open spec fn spec_ascii_lower(s: Seq<char>) -> Seq<char> {
    Seq::new(s.len(), |i: int| spec_lower_char(s[i]))
}

/// The truthy values of the debug switches.
pub open spec fn spec_is_true(s: Seq<char>) -> bool {
    let t = spec_ascii_lower(spec_trim(s));
    t == "true"@ || t == "t"@ || t == "1"@ || t == "yes"@ || t == "y"@
}

/// Case-folded equality against a lowercase token.
fn eq_lower(t: &str, lit: &str) -> (r: bool)
    ensures
        r == (spec_ascii_lower(t@) == lit@),
{
    let n = t.unicode_len();
    let m = lit.unicode_len();
    if n != m {
        proof {
            assert(spec_ascii_lower(t@).len() != lit@.len());
        }
        return false;
    }
    let mut i: usize = 0;
    while i < n
        invariant
            0 <= i <= n,
            n == t@.len(),
            n == lit@.len(),
            forall|k: int| 0 <= k < i ==> spec_ascii_lower(t@)[k] == lit@[k],
        decreases n - i,
    {
        let c = t.get_char(i);
        let c2: char = if 'A' <= c && c <= 'Z' {
            proof {
                assert(65 <= c as u32 <= 90);
            }
            (((c as u32) + 32) as u8) as char
        } else {
            c
        };
        proof {
            assert(c2 == spec_lower_char(t@[i as int]));
        }
        if c2 != lit.get_char(i) {
            return false;
        }
        i = i + 1;
    }
    proof {
        assert(spec_ascii_lower(t@) =~= lit@);
    }
    true
}

/// Whether a switch value counts as on: `true`, `t`, `1`, `yes` or `y`,
/// in any case, with surrounding whitespace ignored.
pub fn is_true(val: &str) -> (r: bool)
    ensures
        r == spec_is_true(val@),
{
    let trimmed = trim_of(val);
    let t = trimmed.as_str();
    eq_lower(t, "true") || eq_lower(t, "t") || eq_lower(t, "1") || eq_lower(t, "yes") || eq_lower(
        t,
        "y",
    )
}

/// Exact text equality of two slices.
pub fn str_eq(a: &str, b: &str) -> (r: bool)
    ensures
        r == (a@ == b@),
{
    let na = a.unicode_len();
    let nb = b.unicode_len();
    if na != nb {
        proof {
            assert(a@.len() != b@.len());
        }
        return false;
    }
    let mut i: usize = 0;
    while i < na
        invariant
            0 <= i <= na,
            na == a@.len(),
            na == b@.len(),
            forall|k: int| 0 <= k < i ==> a@[k] == b@[k],
        decreases na - i,
    {
        if a.get_char(i) != b.get_char(i) {
            return false;
        }
        i = i + 1;
    }
    proof {
        assert(a@ =~= b@);
    }
    true
}

/// The scanner's view of the bracket splitter, resumed at position `i`
/// with `depth` brackets still open.
pub open spec fn spec_split_bracket_at(s: Seq<char>, i: int, depth: int) -> Result<
    (Seq<char>, int),
    ParseErrView,
>
    decreases s.len() - i,
    when 0 <= i <= s.len()
{
    if i >= s.len() {
        Err(ParseErrView::NoCloseBracket)
    } else {
        let c = s[i];
        let d = if c == '[' {
            depth + 1
        } else if c == ']' {
            depth - 1
        } else {
            depth
        };
        if d == 0 {
            Ok((s.subrange(0, i), i + 1))
        } else if d < 0 {
            Err(ParseErrView::EarlyCloseBracket)
        } else {
            spec_split_bracket_at(s, i + 1, d)
        }
    }
}

/// Given the text immediately after an opening bracket, the text up to the
/// matching close bracket, and the index just past that bracket.
pub open spec fn spec_split_bracket(s: Seq<char>) -> Result<(Seq<char>, int), ParseErrView> {
    spec_split_bracket_at(s, 0, 1)
}

pub fn split_bracket(s: &str) -> (r: Result<(String, usize), ParseErr>)
    ensures
        (match r {
            Ok((inner, rest)) => spec_split_bracket(s@) == Ok::<_, ParseErrView>(
                (inner@, rest as int),
            ) && 1 <= rest <= s@.len() && inner@.len() == rest - 1,
            Err(e) => spec_split_bracket(s@) == Err::<(Seq<char>, int), _>(e@),
        }),
{
    let n = s.unicode_len();
    let mut i: usize = 0;
    let mut depth: i128 = 1;
    while i < n
        invariant
            0 <= i <= n,
            n == s@.len(),
            1 <= depth <= i + 1,
            spec_split_bracket(s@) == spec_split_bracket_at(s@, i as int, depth as int),
        decreases n - i,
    {
        let c = s.get_char(i);
        let d: i128 = if c == '[' {
            depth + 1
        } else if c == ']' {
            depth - 1
        } else {
            depth
        };
        if d == 0 {
            let inner = s.substring_char(0, i);
            return Ok((inner.to_owned(), i + 1));
        }
        if d < 0 {
            return Err(ParseErr::EarlyCloseBracket);
        }
        depth = d;
        i = i + 1;
    }
    Err(ParseErr::NoCloseBracket)
}

/// The scanner's view of the argument splitter, resumed mid-input.
/// `cur` is the text gathered since the last separator, `acc` the finished
/// arguments. A backslash escapes the next character; separators are
/// commas and newlines at bracket depth zero, and pieces that trim to
/// nothing are not cut off.
pub open spec fn spec_split_args_at(
    s: Seq<char>,
    i: int,
    depth: int,
    esc: bool,
    cur: Seq<char>,
    acc: Seq<Seq<char>>,
) -> Result<Seq<Seq<char>>, ParseErrView>
    decreases s.len() - i,
    when 0 <= i <= s.len()
{
    if i >= s.len() {
        if spec_trim(cur).len() != 0 {
            Ok(acc.push(spec_trim(cur)))
        } else {
            Ok(acc)
        }
    } else {
        let c = s[i];
        let d = if !esc && c == '[' {
            depth + 1
        } else if !esc && c == ']' {
            depth - 1
        } else {
            depth
        };
        if d < 0 {
            Err(ParseErrView::EarlyCloseBracket)
        } else {
            let is_sep = d == 0 && (c == '\n' || c == ',') && !esc && spec_trim(cur).len() != 0;
            let cur2 = if is_sep {
                Seq::<char>::empty()
            } else {
                cur.push(c)
            };
            let acc2 = if is_sep {
                acc.push(spec_trim(cur))
            } else {
                acc
            };
            spec_split_args_at(s, i + 1, d, !esc && c == '\\', cur2, acc2)
        }
    }
}

/// Split on top-level commas and newlines, trimming each piece and
/// dropping pieces that trim to nothing.
pub open spec fn spec_split_args(s: Seq<char>) -> Result<Seq<Seq<char>>, ParseErrView> {
    spec_split_args_at(s, 0, 0, false, Seq::<char>::empty(), Seq::<Seq<char>>::empty())
}

pub fn split_args(s: &str) -> (r: Result<Vec<String>, ParseErr>)
    ensures
        (match r {
            Ok(args) => spec_split_args(s@) == Ok::<_, ParseErrView>(args.deep_view())
                && forall|k: int|
                    0 <= k < args.deep_view().len() ==> (#[trigger] args.deep_view()[k]).len()
                        <= s@.len(),
            Err(e) => spec_split_args(s@) == Err::<Seq<Seq<char>>, _>(e@),
        }),
{
    let n = s.unicode_len();
    let mut i: usize = 0;
    let mut depth: i128 = 0;
    let mut esc = false;
    let mut cur = String::new();
    let mut acc: Vec<String> = Vec::new();
    proof {
        assert(acc.deep_view() =~= Seq::<Seq<char>>::empty());
    }
    while i < n
        invariant
            0 <= i <= n,
            n == s@.len(),
            0 <= depth <= i,
            cur@.len() <= i,
            forall|k: int|
                0 <= k < acc.deep_view().len() ==> (#[trigger] acc.deep_view()[k]).len() <= n,
            spec_split_args(s@) == spec_split_args_at(
                s@,
                i as int,
                depth as int,
                esc,
                cur@,
                acc.deep_view(),
            ),
        decreases n - i,
    {
        let c = s.get_char(i);
        let d: i128 = if !esc && c == '[' {
            depth + 1
        } else if !esc && c == ']' {
            depth - 1
        } else {
            depth
        };
        if d < 0 {
            return Err(ParseErr::EarlyCloseBracket);
        }
        let trimmed = trim_of(cur.as_str());
        proof {
            lemma_trim_len(cur@);
        }
        let ghost prev_cur = cur@;
        let ghost prev_acc = acc.deep_view();
        if d == 0 && (c == '\n' || c == ',') && !esc && trimmed.as_str().unicode_len() != 0 {
            acc.push(trimmed);
            cur = String::new();
            proof {
                assert(acc.deep_view() =~= prev_acc.push(spec_trim(prev_cur)));
                assert(cur@ =~= Seq::<char>::empty());
            }
        } else {
            let piece = s.substring_char(i, i + 1);
            cur.append(piece);
            proof {
                assert(cur@ =~= prev_cur.push(s@[i as int]));
                assert(acc.deep_view() =~= prev_acc);
            }
        }
        esc = !esc && c == '\\';
        depth = d;
        i = i + 1;
    }
    let trimmed = trim_of(cur.as_str());
    proof {
        lemma_trim_len(cur@);
    }
    let ghost prev_acc = acc.deep_view();
    if trimmed.as_str().unicode_len() != 0 {
        acc.push(trimmed);
        proof {
            assert(acc.deep_view() =~= prev_acc.push(spec_trim(cur@)));
        }
    }
    Ok(acc)
}

/// Bounds of a successful bracket split: the close bracket is found
/// within the text and the inner part is everything before it.
pub proof fn lemma_split_bracket_at_bounds(s: Seq<char>, i: int, depth: int)
    requires
        0 <= i <= s.len(),
    ensures
        (match spec_split_bracket_at(s, i, depth) {
            Ok((inner, rest)) => i < rest <= s.len() && inner == s.subrange(0, rest - 1),
            Err(_) => true,
        }),
    decreases s.len() - i,
{
    if i < s.len() {
        let c = s[i];
        let d = if c == '[' {
            depth + 1
        } else if c == ']' {
            depth - 1
        } else {
            depth
        };
        if d != 0 && d >= 0 {
            lemma_split_bracket_at_bounds(s, i + 1, d);
        }
    }
}

pub proof fn lemma_split_bracket_bounds(s: Seq<char>)
    ensures
        (match spec_split_bracket(s) {
            Ok((inner, rest)) => 1 <= rest <= s.len() && inner.len() == rest - 1,
            Err(_) => true,
        }),
{
    lemma_split_bracket_at_bounds(s, 0, 1);
}

/// Each successful argument is no longer than the text it was split from.
pub proof fn lemma_split_args_at_bounds(
    s: Seq<char>,
    i: int,
    depth: int,
    esc: bool,
    cur: Seq<char>,
    acc: Seq<Seq<char>>,
)
    requires
        0 <= i <= s.len(),
        cur.len() <= i,
        forall|k: int| 0 <= k < acc.len() ==> (#[trigger] acc[k]).len() <= s.len(),
    ensures
        (match spec_split_args_at(s, i, depth, esc, cur, acc) {
            Ok(args) => forall|k: int|
                0 <= k < args.len() ==> (#[trigger] args[k]).len() <= s.len(),
            Err(_) => true,
        }),
    decreases s.len() - i,
{
    lemma_trim_len(cur);
    if i < s.len() {
        let c = s[i];
        let d = if !esc && c == '[' {
            depth + 1
        } else if !esc && c == ']' {
            depth - 1
        } else {
            depth
        };
        if d >= 0 {
            let is_sep = d == 0 && (c == '\n' || c == ',') && !esc && spec_trim(cur).len() != 0;
            let cur2 = if is_sep {
                Seq::<char>::empty()
            } else {
                cur.push(c)
            };
            let acc2 = if is_sep {
                acc.push(spec_trim(cur))
            } else {
                acc
            };
            lemma_split_args_at_bounds(s, i + 1, d, !esc && c == '\\', cur2, acc2);
        }
    }
}

pub proof fn lemma_split_args_bounds(s: Seq<char>)
    ensures
        (match spec_split_args(s) {
            Ok(args) => forall|k: int|
                0 <= k < args.len() ==> (#[trigger] args[k]).len() <= s.len(),
            Err(_) => true,
        }),
{
    lemma_split_args_at_bounds(
        s,
        0,
        0,
        false,
        Seq::<char>::empty(),
        Seq::<Seq<char>>::empty(),
    );
}

/// A piece that the argument splitter passes through whole, starting
/// from the given scan state: its brackets never close early, they end
/// balanced with no escape pending, and it holds no top-level separator.
pub open spec fn spec_piece_plain(p: Seq<char>, depth: int, esc: bool) -> bool
    decreases p.len(),
{
    if p.len() == 0 {
        depth == 0 && !esc
    } else {
        let c = p[0];
        let d = if !esc && c == '[' {
            depth + 1
        } else if !esc && c == ']' {
            depth - 1
        } else {
            depth
        };
        d >= 0 && !(d == 0 && (c == '\n' || c == ',') && !esc) && spec_piece_plain(
            p.drop_first(),
            d,
            !esc && c == '\\',
        )
    }
}

/// The comma-joined form of an argument list.
pub open spec fn spec_join_args(parts: Seq<Seq<char>>) -> Seq<char>
    decreases parts.len(),
{
    if parts.len() == 0 {
        Seq::empty()
    } else if parts.len() == 1 {
        parts[0]
    } else {
        parts[0] + seq![','] + spec_join_args(parts.drop_first())
    }
}

/// Scanning a plain piece only accumulates it into the pending text.
proof fn lemma_args_consume_piece(
    s: Seq<char>,
    i: int,
    k: int,
    depth: int,
    esc: bool,
    cur: Seq<char>,
    acc: Seq<Seq<char>>,
)
    requires
        0 <= i <= k <= s.len(),
        spec_piece_plain(s.subrange(i, k), depth, esc),
    ensures
        spec_split_args_at(s, i, depth, esc, cur, acc) == spec_split_args_at(
            s,
            k,
            0,
            false,
            cur + s.subrange(i, k),
            acc,
        ),
    decreases k - i,
{
    let p = s.subrange(i, k);
    if i == k {
        assert(cur + p =~= cur);
    } else {
        let c = s[i];
        assert(p[0] == c);
        let d = if !esc && c == '[' {
            depth + 1
        } else if !esc && c == ']' {
            depth - 1
        } else {
            depth
        };
        assert(p.drop_first() =~= s.subrange(i + 1, k));
        lemma_args_consume_piece(s, i + 1, k, d, !esc && c == '\\', cur.push(c), acc);
        assert(cur.push(c) + s.subrange(i + 1, k) =~= cur + p);
    }
}

/// The scan only reads characters from the current position on, so it
/// can be replayed on the suffix alone.
proof fn lemma_args_scan_shift(
    s: Seq<char>,
    t: Seq<char>,
    off: int,
    j: int,
    depth: int,
    esc: bool,
    cur: Seq<char>,
    acc: Seq<Seq<char>>,
)
    requires
        0 <= off,
        0 <= j <= t.len(),
        s.len() == off + t.len(),
        forall|k: int| 0 <= k < t.len() ==> s[off + k] == #[trigger] t[k],
    ensures
        spec_split_args_at(s, off + j, depth, esc, cur, acc) == spec_split_args_at(
            t,
            j,
            depth,
            esc,
            cur,
            acc,
        ),
    decreases t.len() - j,
{
    if j < t.len() {
        let c = t[j];
        assert(s[off + j] == c);
        let d = if !esc && c == '[' {
            depth + 1
        } else if !esc && c == ']' {
            depth - 1
        } else {
            depth
        };
        if d >= 0 {
            let is_sep = d == 0 && (c == '\n' || c == ',') && !esc && spec_trim(cur).len() != 0;
            let cur2 = if is_sep {
                Seq::<char>::empty()
            } else {
                cur.push(c)
            };
            let acc2 = if is_sep {
                acc.push(spec_trim(cur))
            } else {
                acc
            };
            lemma_args_scan_shift(s, t, off, j + 1, d, !esc && c == '\\', cur2, acc2);
        }
    }
}

proof fn lemma_split_args_join(parts: Seq<Seq<char>>, acc: Seq<Seq<char>>)
    requires
        parts.len() > 0,
        forall|k: int|
            0 <= k < parts.len() ==> (#[trigger] parts[k]).len() > 0 && spec_trim(parts[k])
                == parts[k] && spec_piece_plain(parts[k], 0, false),
    ensures
        spec_split_args_at(
            spec_join_args(parts),
            0,
            0,
            false,
            Seq::empty(),
            acc,
        ) == Ok::<_, ParseErrView>(acc + parts),
    decreases parts.len(),
{
    let p = parts[0];
    let s = spec_join_args(parts);
    if parts.len() == 1 {
        assert(s == p);
        assert(s.subrange(0, s.len() as int) =~= p);
        lemma_args_consume_piece(s, 0, s.len() as int, 0, false, Seq::empty(), acc);
        assert(Seq::<char>::empty() + p =~= p);
        assert(acc.push(p) =~= acc + parts);
    } else {
        let rest = spec_join_args(parts.drop_first());
        assert(s == p + seq![','] + rest);
        let pl = p.len() as int;
        assert(s.subrange(0, pl) =~= p);
        lemma_args_consume_piece(s, 0, pl, 0, false, Seq::empty(), acc);
        assert(Seq::<char>::empty() + p =~= p);
        assert(s[pl] == ',');
        assert(spec_split_args_at(s, pl, 0, false, p, acc) == spec_split_args_at(
            s,
            pl + 1,
            0,
            false,
            Seq::empty(),
            acc.push(p),
        ));
        assert forall|k: int| 0 <= k < rest.len() implies s[pl + 1 + k] == #[trigger] rest[k] by {
            assert(s[pl + 1 + k] == (p + seq![','] + rest)[pl + 1 + k]);
        }
        lemma_args_scan_shift(s, rest, pl + 1, 0, 0, false, Seq::empty(), acc.push(p));
        assert(forall|k: int|
            0 <= k < parts.drop_first().len() ==> (#[trigger] parts.drop_first()[k]).len() > 0
                && spec_trim(parts.drop_first()[k]) == parts.drop_first()[k] && spec_piece_plain(
                parts.drop_first()[k],
                0,
                false,
            ));
        lemma_split_args_join(parts.drop_first(), acc.push(p));
        assert(acc.push(p) + parts.drop_first() =~= acc + parts);
    }
}

/// Splitting a comma-joined list of already-split, trimmed, plain pieces
/// reproduces exactly that list.
pub proof fn lemma_split_args_idempotent(parts: Seq<Seq<char>>)
    requires
        forall|k: int|
            0 <= k < parts.len() ==> (#[trigger] parts[k]).len() > 0 && spec_trim(parts[k])
                == parts[k] && spec_piece_plain(parts[k], 0, false),
    ensures
        spec_split_args(spec_join_args(parts)) == Ok::<_, ParseErrView>(parts),
{
    if parts.len() == 0 {
        assert(spec_join_args(parts).len() == 0);
        assert(spec_trim(Seq::<char>::empty()).len() == 0);
        assert(Seq::<Seq<char>>::empty() =~= parts);
    } else {
        lemma_split_args_join(parts, Seq::empty());
        assert(Seq::<Seq<char>>::empty() + parts =~= parts);
    }
}

pub open spec fn spec_is_digit(c: char) -> bool {
    48 <= c as u32 && c as u32 <= 57
}

pub open spec fn spec_digit_val(c: char) -> int {
    c as u32 - 48
}

/// Integral-digit accumulator, stuck at a ceiling well past the
/// representable range so that overlong literals saturate.
pub open spec fn spec_cap_acc(acc: int, d: int) -> int {
    if acc * 10 + d > 10000000000000 {
        10000000000000
    } else {
        acc * 10 + d
    }
}

/// Weight of the gathered fraction digits: the first six places count,
/// further digits are dropped.
pub open spec fn spec_frac_scale(cnt: int) -> int {
    if cnt <= 0 {
        1000000
    } else if cnt == 1 {
        100000
    } else if cnt == 2 {
        10000
    } else if cnt == 3 {
        1000
    } else if cnt == 4 {
        100
    } else if cnt == 5 {
        10
    } else {
        1
    }
}

/// Fraction digits of a literal, resumed at `i`: `acc` the integral part,
/// `cnt` fraction digits seen, `frac` their value.
pub open spec fn spec_num_frac(
    s: Seq<char>,
    i: int,
    acc: int,
    any: bool,
    cnt: int,
    frac: int,
) -> Result<int, ParseErrView>
    decreases s.len() - i,
    when 0 <= i <= s.len()
{
    if i >= s.len() {
        if any || cnt > 0 {
            Ok(acc * 1000000 + frac * spec_frac_scale(cnt))
        } else {
            Err(ParseErrView::InvalidNumber)
        }
    } else if spec_is_digit(s[i]) {
        if cnt < 6 {
            spec_num_frac(s, i + 1, acc, any, cnt + 1, frac * 10 + spec_digit_val(s[i]))
        } else {
            spec_num_frac(s, i + 1, acc, any, cnt + 1, frac)
        }
    } else {
        Err(ParseErrView::InvalidNumber)
    }
}

/// Integral digits of a literal, resumed at `i`; `any` records whether a
/// digit has been seen.
pub open spec fn spec_num_int(s: Seq<char>, i: int, acc: int, any: bool) -> Result<
    int,
    ParseErrView,
>
    decreases s.len() - i,
    when 0 <= i <= s.len()
{
    if i >= s.len() {
        if any {
            Ok(acc * 1000000)
        } else {
            Err(ParseErrView::InvalidNumber)
        }
    } else if spec_is_digit(s[i]) {
        spec_num_int(s, i + 1, spec_cap_acc(acc, spec_digit_val(s[i])), true)
    } else if s[i] == '.' {
        spec_num_frac(s, i + 1, acc, any, 0, 0)
    } else {
        Err(ParseErrView::InvalidNumber)
    }
}

/// A signed decimal literal in millionths, saturated into fixed point:
/// an optional sign, then digits with at most one decimal point, at least
/// one digit in all.
pub open spec fn spec_parse_fx(s: Seq<char>) -> Result<Fx, ParseErrView> {
    let neg = s.len() > 0 && s[0] == '-';
    let start: int = if s.len() > 0 && (s[0] == '-' || s[0] == '+') {
        1
    } else {
        0
    };
    match spec_num_int(s, start, 0, false) {
        Err(e) => Err(e),
        Ok(v) => Ok(
            Fx::spec_of(
                if neg {
                    -v
                } else {
                    v
                },
            ),
        ),
    }
}

/// Whether the character at `i` is a decimal digit.
fn digit_at(s: &str, i: usize, n: usize) -> (r: bool)
    requires
        n == s@.len(),
    ensures
        r == (i < s@.len() && spec_is_digit(s@[i as int])),
{
    if i >= n {
        return false;
    }
    let c = s.get_char(i);
    '0' <= c && c <= '9'
}

/// Parse a decimal literal into fixed point.
pub fn parse_fx(s: &str) -> (r: Result<Fx, ParseErr>)
    ensures
        (match r {
            Ok(v) => spec_parse_fx(s@) == Ok::<_, ParseErrView>(v),
            Err(e) => spec_parse_fx(s@) == Err::<Fx, _>(e@),
        }),
{
    let n = s.unicode_len();
    let mut i: usize = 0;
    let mut neg = false;
    if n > 0 {
        let c0 = s.get_char(0);
        if c0 == '-' {
            neg = true;
            i = 1;
        } else if c0 == '+' {
            i = 1;
        }
    }
    let ghost start = i as int;
    let mut acc: u64 = 0;
    let mut any = false;
    while digit_at(s, i, n)
        invariant
            0 <= start <= i <= n,
            n == s@.len(),
            acc <= 10000000000000,
            spec_num_int(s@, start, 0, false) == spec_num_int(s@, i as int, acc as int, any),
        decreases n - i,
    {
        let c = s.get_char(i);
        let d: u64 = (c as u32 as u64) - 48;
        let t: u64 = acc * 10 + d;
        if t > 10000000000000 {
            acc = 10000000000000;
        } else {
            acc = t;
        }
        any = true;
        i = i + 1;
    }
    if i >= n {
        if !any {
            return Err(ParseErr::InvalidNumber);
        }
        let v: u64 = acc * 1000000;
        return Ok(sat_signed(neg, v));
    }
    let c = s.get_char(i);
    if c != '.' {
        return Err(ParseErr::InvalidNumber);
    }
    i = i + 1;
    let mut cnt: usize = 0;
    let mut frac: u64 = 0;
    while digit_at(s, i, n)
        invariant
            0 <= i <= n,
            n == s@.len(),
            acc <= 10000000000000,
            cnt <= i,
            frac < 1000000,
            cnt < 6 ==> (frac as int) < spec_frac_scale(6 - cnt),
            spec_num_int(s@, start, 0, false) == spec_num_frac(
                s@,
                i as int,
                acc as int,
                any,
                cnt as int,
                frac as int,
            ),
        decreases n - i,
    {
        let c2 = s.get_char(i);
        let d: u64 = (c2 as u32 as u64) - 48;
        if cnt < 6 {
            frac = frac * 10 + d;
        }
        cnt = cnt + 1;
        i = i + 1;
    }
    if i < n {
        return Err(ParseErr::InvalidNumber);
    }
    if !any && cnt == 0 {
        return Err(ParseErr::InvalidNumber);
    }
    let scale: u64 = if cnt == 0 {
        1000000
    } else if cnt == 1 {
        100000
    } else if cnt == 2 {
        10000
    } else if cnt == 3 {
        1000
    } else if cnt == 4 {
        100
    } else if cnt == 5 {
        10
    } else {
        1
    };
    let v: u64 = acc * 1000000 + frac * scale;
    Ok(sat_signed(neg, v))
}

/// Saturate an unsigned millionth count into fixed point with a sign.
fn sat_signed(neg: bool, v: u64) -> (r: Fx)
    ensures
        r == Fx::spec_of(
            if neg {
                -(v as int)
            } else {
                v as int
            },
        ),
{
    crate::fixed::sat_from(neg, v as u128)
}

} // verus!
