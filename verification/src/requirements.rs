//! Boolean requirement expressions over player state.
//!
//! An expression is a head term followed by a chain of and/or operator and
//! term pairs, evaluated strictly left to right with no precedence; grouping
//! happens only through explicit brackets. A term is a negation, a bracketed
//! sub-expression, a tag-membership test, or a comparison between two
//! operands, each either a stat keyword or a number literal.
use vstd::prelude::*;
use vstd::string::{StrSliceExecFns, StringExecFns};
use crate::fixed::Fx;
use crate::player::{PlayerData, PlayerView, spec_has_text};
use crate::parse::{ParseErr, ParseErrView, spec_is_space, spec_trim, trim_of,
    str_eq, spec_split_bracket, split_bracket, spec_parse_fx, parse_fx,
    lemma_trim_len, lemma_split_bracket_bounds};

verus! {

/// Tolerance of the equality comparisons. The float tolerance the format
/// historically used is smaller than one millionth, so in fixed point it
/// collapses to exact equality.
pub const FX_EPSILON: i64 = 0;

/// One comparison operand: a player stat by keyword, or a constant.
#[derive(Debug, Clone, Copy, PartialEq, Eq, Structural)]
pub enum CompVal {
    Recovery,
    Focus,
    Reasoning,
    Fitness,
    Strength,
    Speed,
    Charisma,
    Expression,
    Deception,
    Const(Fx),
}

/// A comparison operator; equality and inequality allow the fixed
/// tolerance.
#[derive(Debug, Clone, Copy, PartialEq, Eq, Structural)]
pub enum Comparison {
    LessThan,
    LessThanOrEqual,
    GreaterThan,
    GreaterThanOrEqual,
    Equal,
    NotEqual,
}

/// The two chain operators.
#[derive(Debug, Clone, Copy, PartialEq, Eq, Structural)]
pub enum ReqOps {
    And,
    Or,
}

/// One term of a requirement expression.
#[derive(Debug, PartialEq)]
pub enum ReqVal {
    Not(Box<ReqVal>),
    Req(Box<Requirements>),
    Tag(String),
    Comparison(CompVal, Comparison, CompVal),
}

/// A head term and a left-to-right operator chain.
#[derive(Debug, PartialEq)]
pub struct Requirements {
    pub head: ReqVal,
    pub body: Vec<(ReqOps, ReqVal)>,
}

/// The mathematical image of a [`ReqVal`].
pub enum ReqValView {
    Not(Box<ReqValView>),
    Req(Box<ReqsView>),
    Tag(Seq<char>),
    Comparison(CompVal, Comparison, CompVal),
}

/// The mathematical image of a [`Requirements`].
pub struct ReqsView {
    pub head: ReqValView,
    pub body: Seq<(ReqOps, ReqValView)>,
}

pub open spec fn spec_reqval_view(r: ReqVal) -> ReqValView
    decreases r,
{
    match r {
        ReqVal::Not(b) => ReqValView::Not(Box::new(spec_reqval_view(*b))),
        ReqVal::Req(b) => ReqValView::Req(Box::new(spec_reqs_view(*b))),
        ReqVal::Tag(s) => ReqValView::Tag(s@),
        ReqVal::Comparison(a, c, b) => ReqValView::Comparison(a, c, b),
    }
}

pub open spec fn spec_body_view(body: Seq<(ReqOps, ReqVal)>) -> Seq<(ReqOps, ReqValView)>
    decreases body,
{
    if body.len() == 0 {
        Seq::empty()
    } else {
        seq![(body[0].0, spec_reqval_view(body[0].1))] + spec_body_view(body.drop_first())
    }
}

pub open spec fn spec_reqs_view(r: Requirements) -> ReqsView
    decreases r,
{
    ReqsView { head: spec_reqval_view(r.head), body: spec_body_view(r.body@) }
}

impl View for ReqVal {
    type V = ReqValView;

    open spec fn view(&self) -> ReqValView {
        spec_reqval_view(*self)
    }
}

impl View for Requirements {
    type V = ReqsView;

    open spec fn view(&self) -> ReqsView {
        spec_reqs_view(*self)
    }
}

/// The value of one operand against given player state.
pub open spec fn spec_eval_compval(c: CompVal, p: PlayerView) -> Fx {
    match c {
        CompVal::Recovery => Fx::spec_of(p.recovery * 1000000),
        CompVal::Focus => Fx::spec_of(p.recovery * 1000000),
        CompVal::Reasoning => Fx::spec_of(p.recovery * 1000000),
        CompVal::Fitness => Fx::spec_of(p.fitness * 1000000),
        CompVal::Strength => Fx::spec_of(p.fitness * 1000000),
        CompVal::Speed => Fx::spec_of(p.fitness * 1000000),
        CompVal::Charisma => Fx::spec_of(p.charisma * 1000000),
        CompVal::Expression => Fx::spec_of(p.charisma * 1000000),
        CompVal::Deception => Fx::spec_of(p.charisma * 1000000),
        CompVal::Const(v) => v,
    }
}

/// One comparison between two values.
pub open spec fn spec_eval_cmp(op: Comparison, a: Fx, b: Fx) -> bool {
    match op {
        Comparison::LessThan => a.raw < b.raw,
        Comparison::LessThanOrEqual => a.raw <= b.raw,
        Comparison::GreaterThan => a.raw > b.raw,
        Comparison::GreaterThanOrEqual => a.raw >= b.raw,
        Comparison::Equal => a.spec_sub(b).spec_abs().raw <= FX_EPSILON,
        Comparison::NotEqual => a.spec_sub(b).spec_abs().raw > FX_EPSILON,
    }
}

/// The value of one term. A negation inverts, a bracketed sub-expression
/// evaluates as a whole, a tag tests membership, a comparison compares.
/// Evaluation never fails.
pub open spec fn spec_eval_reqval(r: ReqValView, p: PlayerView) -> bool
    decreases r, 0nat,
{
    match r {
        ReqValView::Not(b) => !spec_eval_reqval(*b, p),
        ReqValView::Req(b) => spec_eval_reqs(*b, p),
        ReqValView::Tag(t) => spec_has_text(p.acquired_tags, t),
        ReqValView::Comparison(a, c, b) => spec_eval_cmp(
            c,
            spec_eval_compval(a, p),
            spec_eval_compval(b, p),
        ),
    }
}

/// The strict left fold over the operator chain, starting from `acc`.
pub open spec fn spec_eval_body(
    body: Seq<(ReqOps, ReqValView)>,
    i: int,
    acc: bool,
    p: PlayerView,
) -> bool
    decreases body, body.len() - i,
    when 0 <= i <= body.len()
{
    if i >= body.len() {
        acc
    } else {
        let val = spec_eval_reqval(body[i].1, p);
        let acc2 = match body[i].0 {
            ReqOps::And => acc && val,
            ReqOps::Or => acc || val,
        };
        spec_eval_body(body, i + 1, acc2, p)
    }
}

/// The value of a whole expression: the head, folded left to right with
/// each operator and term.
pub open spec fn spec_eval_reqs(r: ReqsView, p: PlayerView) -> bool
    decreases r, 1nat,
{
    spec_eval_body(r.body, 0, spec_eval_reqval(r.head, p), p)
}

impl CompVal {
    pub fn evaluate(&self, data: &PlayerData) -> (r: Fx)
        ensures
            r == spec_eval_compval(*self, data@),
    {
        match self {
            CompVal::Recovery => Fx::from_int(data.recovery() as i64),
            CompVal::Focus => Fx::from_int(data.focus() as i64),
            CompVal::Reasoning => Fx::from_int(data.reasoning() as i64),
            CompVal::Fitness => Fx::from_int(data.fitness() as i64),
            CompVal::Strength => Fx::from_int(data.strength() as i64),
            CompVal::Speed => Fx::from_int(data.speed() as i64),
            CompVal::Charisma => Fx::from_int(data.charisma() as i64),
            CompVal::Expression => Fx::from_int(data.expression() as i64),
            CompVal::Deception => Fx::from_int(data.deception() as i64),
            CompVal::Const(v) => *v,
        }
    }
}

impl Comparison {
    pub fn evaluate(self, v1: &CompVal, v2: &CompVal, data: &PlayerData) -> (r: bool)
        ensures
            r == spec_eval_cmp(self, spec_eval_compval(*v1, data@), spec_eval_compval(*v2, data@)),
    {
        let a = v1.evaluate(data);
        let b = v2.evaluate(data);
        match self {
            Comparison::LessThan => a.raw < b.raw,
            Comparison::LessThanOrEqual => a.raw <= b.raw,
            Comparison::GreaterThan => a.raw > b.raw,
            Comparison::GreaterThanOrEqual => a.raw >= b.raw,
            Comparison::Equal => a.sub(b).abs().raw <= FX_EPSILON,
            Comparison::NotEqual => a.sub(b).abs().raw > FX_EPSILON,
        }
    }
}

impl ReqVal {
    pub fn evaluate(&self, data: &PlayerData) -> (r: bool)
        ensures
            r == spec_eval_reqval(self@, data@),
        decreases *self, 0nat,
    {
        match self {
            ReqVal::Not(b) => !b.evaluate(data),
            ReqVal::Req(b) => b.evaluate(data),
            ReqVal::Tag(t) => data.has_tag(t.as_str()),
            ReqVal::Comparison(a, c, b) => c.evaluate(a, b, data),
        }
    }
}

impl Requirements {
    /// Evaluate against live player state; never fails.
    pub fn evaluate(&self, data: &PlayerData) -> (r: bool)
        ensures
            r == spec_eval_reqs(self@, data@),
        decreases *self, 1nat,
    {
        let mut acc = self.head.evaluate(data);
        let n = self.body.len();
        let ghost bodyv = spec_body_view(self.body@);
        proof {
            lemma_body_view_len(self.body@);
        }
        let mut i: usize = 0;
        while i < n
            invariant
                0 <= i <= n,
                n == self.body.len(),
                bodyv == spec_body_view(self.body@),
                bodyv.len() == n,
                spec_eval_reqs(self@, data@) == spec_eval_body(bodyv, i as int, acc, data@),
            decreases n - i,
        {
            proof {
                lemma_body_view_index(self.body@, i as int);
            }
            let val = self.body[i].1.evaluate(data);
            match self.body[i].0 {
                ReqOps::And => {
                    acc = acc && val;
                },
                ReqOps::Or => {
                    acc = acc || val;
                },
            }
            i = i + 1;
        }
        acc
    }
}

/// A sequence with every whitespace character removed.
pub open spec fn spec_strip_spaces(s: Seq<char>) -> Seq<char>
    decreases s.len(),
{
    if s.len() == 0 {
        Seq::empty()
    } else if spec_is_space(s[0]) {
        spec_strip_spaces(s.drop_first())
    } else {
        seq![s[0]] + spec_strip_spaces(s.drop_first())
    }
}

pub proof fn lemma_strip_len(s: Seq<char>)
    ensures
        spec_strip_spaces(s).len() <= s.len(),
    decreases s.len(),
{
    if s.len() > 0 {
        lemma_strip_len(s.drop_first());
    }
}

/// Remove every whitespace character.
pub fn strip_spaces_of(s: &str) -> (r: String)
    ensures
        r@ == spec_strip_spaces(s@),
{
    let n = s.unicode_len();
    let mut out = String::new();
    let mut i: usize = 0;
    proof {
        assert(s@.subrange(0, n as int) =~= s@);
        assert(out@ + spec_strip_spaces(s@) =~= spec_strip_spaces(s@));
    }
    while i < n
        invariant
            0 <= i <= n,
            n == s@.len(),
            spec_strip_spaces(s@) == out@ + spec_strip_spaces(
                s@.subrange(i as int, n as int),
            ),
        decreases n - i,
    {
        let c = s.get_char(i);
        let ghost tail = s@.subrange(i as int, n as int);
        proof {
            assert(tail.drop_first() =~= s@.subrange(i as int + 1, n as int));
        }
        if !crate::parse::is_space(c) {
            let ghost prev = out@;
            let piece = s.substring_char(i, i + 1);
            out.append(piece);
            proof {
                assert(out@ =~= prev.push(s@[i as int]));
                assert(prev + (seq![s@[i as int]] + spec_strip_spaces(
                    tail.drop_first(),
                )) =~= out@ + spec_strip_spaces(tail.drop_first()));
            }
        }
        i = i + 1;
    }
    proof {
        assert(s@.subrange(n as int, n as int) =~= Seq::<char>::empty());
        assert(out@ + Seq::<char>::empty() =~= out@);
    }
    out
}

/// Index of the first chain operator at bracket depth zero at or past
/// `i`, or the length. Operators inside brackets belong to the nested
/// expression and are skipped.
pub open spec fn spec_find_op(t: Seq<char>, i: int, depth: int) -> int
    decreases t.len() - i,
    when 0 <= i <= t.len()
{
    if i >= t.len() {
        t.len() as int
    } else if (t[i] == '&' || t[i] == '|') && depth == 0 {
        i
    } else {
        let d = if t[i] == '[' {
            depth + 1
        } else if t[i] == ']' {
            depth - 1
        } else {
            depth
        };
        spec_find_op(t, i + 1, d)
    }
}

fn find_op_idx(t: &str, n: usize) -> (r: usize)
    requires
        n == t@.len(),
    ensures
        r == spec_find_op(t@, 0, 0),
        r <= n,
{
    let mut i: usize = 0;
    let mut depth: i128 = 0;
    while i < n
        invariant
            0 <= i <= n,
            n == t@.len(),
            -(i as int) <= depth <= i,
            spec_find_op(t@, 0, 0) == spec_find_op(t@, i as int, depth as int),
        decreases n - i,
    {
        let c = t.get_char(i);
        if (c == '&' || c == '|') && depth == 0 {
            return i;
        }
        if c == '[' {
            depth = depth + 1;
        } else if c == ']' {
            depth = depth - 1;
        }
        i = i + 1;
    }
    n
}

/// The comparison splitter's scan: operator characters anywhere in the
/// text go to `comp`; other characters go to `start` until the first
/// operator character is seen and to `endd` after.
pub open spec fn spec_split_cmp_at(
    s: Seq<char>,
    i: int,
    start: Seq<char>,
    comp: Seq<char>,
    endd: Seq<char>,
    ending: bool,
) -> (Seq<char>, Seq<char>, Seq<char>)
    decreases s.len() - i,
    when 0 <= i <= s.len()
{
    if i >= s.len() {
        (start, comp, endd)
    } else {
        let c = s[i];
        if c == '<' || c == '=' || c == '>' || c == '!' {
            spec_split_cmp_at(s, i + 1, start, comp.push(c), endd, true)
        } else if ending {
            spec_split_cmp_at(s, i + 1, start, comp, endd.push(c), ending)
        } else {
            spec_split_cmp_at(s, i + 1, start.push(c), comp, endd, ending)
        }
    }
}

/// Split a comparison into left operand, operator text and right operand;
/// any of the three being empty is a failure.
pub open spec fn spec_split_comparison(s: Seq<char>) -> Result<
    (Seq<char>, Seq<char>, Seq<char>),
    ParseErrView,
> {
    let (start, comp, endd) = spec_split_cmp_at(
        s,
        0,
        Seq::empty(),
        Seq::empty(),
        Seq::empty(),
        false,
    );
    if start.len() == 0 || comp.len() == 0 || endd.len() == 0 {
        Err(ParseErrView::InvalidComparison)
    } else {
        Ok((start, comp, endd))
    }
}

/// Split a comparison fragment into its three parts.
pub fn split_comparison(s: &str) -> (r: Result<(String, String, String), ParseErr>)
    ensures
        (match r {
            Ok((a, c, b)) => spec_split_comparison(s@) == Ok::<_, ParseErrView>((a@, c@, b@)),
            Err(e) => spec_split_comparison(s@) == Err::<(Seq<char>, Seq<char>, Seq<char>), _>(e@),
        }),
{
    let n = s.unicode_len();
    let mut start = String::new();
    let mut comp = String::new();
    let mut endd = String::new();
    let mut ending = false;
    let mut i: usize = 0;
    while i < n
        invariant
            0 <= i <= n,
            n == s@.len(),
            spec_split_cmp_at(
                s@,
                0,
                Seq::empty(),
                Seq::empty(),
                Seq::empty(),
                false,
            ) == spec_split_cmp_at(s@, i as int, start@, comp@, endd@, ending),
        decreases n - i,
    {
        let c = s.get_char(i);
        let piece = s.substring_char(i, i + 1);
        if c == '<' || c == '=' || c == '>' || c == '!' {
            let ghost prev = comp@;
            comp.append(piece);
            ending = true;
            proof {
                assert(comp@ =~= prev.push(s@[i as int]));
            }
        } else if ending {
            let ghost prev = endd@;
            endd.append(piece);
            proof {
                assert(endd@ =~= prev.push(s@[i as int]));
            }
        } else {
            let ghost prev = start@;
            start.append(piece);
            proof {
                assert(start@ =~= prev.push(s@[i as int]));
            }
        }
        i = i + 1;
    }
    if start.as_str().unicode_len() == 0 || comp.as_str().unicode_len() == 0
        || endd.as_str().unicode_len() == 0 {
        Err(ParseErr::InvalidComparison)
    } else {
        Ok((start, comp, endd))
    }
}

/// One operand: a stat keyword, else a number literal.
pub open spec fn spec_parse_compval(s: Seq<char>) -> Result<CompVal, ParseErrView> {
    if s == "recovery"@ {
        Ok(CompVal::Recovery)
    } else if s == "focus"@ {
        Ok(CompVal::Focus)
    } else if s == "reasoning"@ {
        Ok(CompVal::Reasoning)
    } else if s == "fitness"@ {
        Ok(CompVal::Fitness)
    } else if s == "speed"@ {
        Ok(CompVal::Speed)
    } else if s == "strength"@ {
        Ok(CompVal::Strength)
    } else if s == "charisma"@ {
        Ok(CompVal::Charisma)
    } else if s == "expression"@ {
        Ok(CompVal::Expression)
    } else if s == "deception"@ {
        Ok(CompVal::Deception)
    } else {
        match spec_parse_fx(s) {
            Ok(v) => Ok(CompVal::Const(v)),
            Err(e) => Err(e),
        }
    }
}

/// The operator tokens.
pub open spec fn spec_parse_comparison(s: Seq<char>) -> Result<Comparison, ParseErrView> {
    if s == "<"@ {
        Ok(Comparison::LessThan)
    } else if s == "<="@ {
        Ok(Comparison::LessThanOrEqual)
    } else if s == ">"@ {
        Ok(Comparison::GreaterThan)
    } else if s == ">="@ {
        Ok(Comparison::GreaterThanOrEqual)
    } else if s == "="@ {
        Ok(Comparison::Equal)
    } else if s == "!="@ {
        Ok(Comparison::NotEqual)
    } else {
        Err(ParseErrView::InvalidComparison)
    }
}

impl CompVal {
    pub fn from_str(s: &str) -> (r: Result<CompVal, ParseErr>)
        ensures
            (match r {
                Ok(v) => spec_parse_compval(s@) == Ok::<_, ParseErrView>(v),
                Err(e) => spec_parse_compval(s@) == Err::<CompVal, _>(e@),
            }),
    {
        if str_eq(s, "recovery") {
            Ok(CompVal::Recovery)
        } else if str_eq(s, "focus") {
            Ok(CompVal::Focus)
        } else if str_eq(s, "reasoning") {
            Ok(CompVal::Reasoning)
        } else if str_eq(s, "fitness") {
            Ok(CompVal::Fitness)
        } else if str_eq(s, "speed") {
            Ok(CompVal::Speed)
        } else if str_eq(s, "strength") {
            Ok(CompVal::Strength)
        } else if str_eq(s, "charisma") {
            Ok(CompVal::Charisma)
        } else if str_eq(s, "expression") {
            Ok(CompVal::Expression)
        } else if str_eq(s, "deception") {
            Ok(CompVal::Deception)
        } else {
            match parse_fx(s) {
                Ok(v) => Ok(CompVal::Const(v)),
                Err(e) => Err(e),
            }
        }
    }
}

impl Comparison {
    pub fn from_str(s: &str) -> (r: Result<Comparison, ParseErr>)
        ensures
            (match r {
                Ok(v) => spec_parse_comparison(s@) == Ok::<_, ParseErrView>(v),
                Err(e) => spec_parse_comparison(s@) == Err::<Comparison, _>(e@),
            }),
    {
        if str_eq(s, "<") {
            Ok(Comparison::LessThan)
        } else if str_eq(s, "<=") {
            Ok(Comparison::LessThanOrEqual)
        } else if str_eq(s, ">") {
            Ok(Comparison::GreaterThan)
        } else if str_eq(s, ">=") {
            Ok(Comparison::GreaterThanOrEqual)
        } else if str_eq(s, "=") {
            Ok(Comparison::Equal)
        } else if str_eq(s, "!=") {
            Ok(Comparison::NotEqual)
        } else {
            Err(ParseErr::InvalidComparison)
        }
    }
}

/// One term: a bracketed sub-expression, a negation, a comparison, or
/// failing a comparison shape, a tag test. An empty term is rejected, as
/// is trailing text after a bracketed group.
pub open spec fn spec_parse_reqval(s: Seq<char>) -> Result<ReqValView, ParseErrView>
    decreases s.len(), 0nat, 0nat,
    via parse_reqval_dec
{
    if s.len() == 0 {
        Err(ParseErrView::NotEnoughArgs)
    } else if s[0] == '[' {
        match spec_split_bracket(s.subrange(1, s.len() as int)) {
            Err(e) => Err(e),
            Ok((req, skip)) => if spec_trim(s.subrange(skip + 1, s.len() as int)).len() != 0 {
                Err(ParseErrView::EarlyCloseBracket)
            } else {
                match spec_parse_requirements(req) {
                    Ok(r) => Ok(ReqValView::Req(Box::new(r))),
                    Err(e) => Err(e),
                }
            },
        }
    } else if s[0] == '!' {
        match spec_parse_reqval(s.subrange(1, s.len() as int)) {
            Ok(v) => Ok(ReqValView::Not(Box::new(v))),
            Err(e) => Err(e),
        }
    } else {
        match spec_split_comparison(s) {
            Ok((a, c, b)) => match spec_parse_compval(a) {
                Err(e) => Err(e),
                Ok(av) => match spec_parse_comparison(c) {
                    Err(e) => Err(e),
                    Ok(cv) => match spec_parse_compval(b) {
                        Err(e) => Err(e),
                        Ok(bv) => Ok(ReqValView::Comparison(av, cv, bv)),
                    },
                },
            },
            Err(_) => Ok(ReqValView::Tag(spec_trim(s))),
        }
    }
}

/// The operator chain after the head, scanned from `i`; `last` is the
/// index just past the most recent operator, `ops` that operator.
pub open spec fn spec_parse_req_body(
    slen: nat,
    t: Seq<char>,
    i: int,
    last: int,
    depth: int,
    ops: Option<ReqOps>,
    acc: Seq<(ReqOps, ReqValView)>,
) -> Result<Seq<(ReqOps, ReqValView)>, ParseErrView>
    decreases slen, 0nat, t.len() - i + 1,
    when 0 <= i <= t.len() && t.len() <= slen && (ops is Some ==> 1 <= last <= i) && (
    ops is None ==> last == 1)
{
    if i >= t.len() {
        match ops {
            None => Ok(acc),
            Some(op) => match spec_parse_reqval(t.subrange(last, t.len() as int)) {
                Ok(v) => Ok(acc.push((op, v))),
                Err(e) => Err(e),
            },
        }
    } else {
        let c = t[i];
        if (c == '&' || c == '|') && depth == 0 {
            let newop = if c == '&' {
                ReqOps::And
            } else {
                ReqOps::Or
            };
            match ops {
                None => spec_parse_req_body(slen, t, i + 1, i + 1, depth, Some(newop), acc),
                Some(op) => match spec_parse_reqval(t.subrange(last, i)) {
                    Ok(v) => spec_parse_req_body(
                        slen,
                        t,
                        i + 1,
                        i + 1,
                        depth,
                        Some(newop),
                        acc.push((op, v)),
                    ),
                    Err(e) => Err(e),
                },
            }
        } else {
            let d2 = if c == '[' {
                depth + 1
            } else if c == ']' {
                depth - 1
            } else {
                depth
            };
            if ops is None {
                Err(ParseErrView::InvalidReqOps)
            } else {
                spec_parse_req_body(slen, t, i + 1, last, d2, ops, acc)
            }
        }
    }
}

/// A whole expression: whitespace is removed, the text before the first
/// operator is the head term, and the rest is the operator chain.
pub open spec fn spec_parse_requirements(s: Seq<char>) -> Result<ReqsView, ParseErrView>
    decreases s.len(), 1nat, 0nat,
    via parse_requirements_dec
{
    let t = spec_strip_spaces(s);
    let cut = spec_find_op(t, 0, 0);
    match spec_parse_reqval(t.subrange(0, cut)) {
        Err(e) => Err(e),
        Ok(head) => match spec_parse_req_body(
            s.len(),
            t.subrange(cut, t.len() as int),
            0,
            1,
            0,
            None,
            Seq::empty(),
        ) {
            Err(e) => Err(e),
            Ok(body) => Ok(ReqsView { head, body }),
        },
    }
}

#[via_fn]
proof fn parse_reqval_dec(s: Seq<char>) {
    if s.len() > 0 && s[0] == '[' {
        lemma_split_bracket_bounds(s.subrange(1, s.len() as int));
    }
}

#[via_fn]
proof fn parse_requirements_dec(s: Seq<char>) {
    lemma_strip_len(s);
    lemma_find_op_bounds(spec_strip_spaces(s), 0, 0);
}

/// The first-operator search stays within bounds.
pub proof fn lemma_find_op_bounds(t: Seq<char>, i: int, depth: int)
    requires
        0 <= i <= t.len(),
    ensures
        i <= spec_find_op(t, i, depth) <= t.len(),
    decreases t.len() - i,
{
    if i < t.len() && !((t[i] == '&' || t[i] == '|') && depth == 0) {
        let d = if t[i] == '[' {
            depth + 1
        } else if t[i] == ']' {
            depth - 1
        } else {
            depth
        };
        lemma_find_op_bounds(t, i + 1, d);
    }
}

impl ReqVal {
    /// Parse one term.
    pub fn from_str(s: &str) -> (r: Result<ReqVal, ParseErr>)
        ensures
            (match r {
                Ok(v) => spec_parse_reqval(s@) == Ok::<_, ParseErrView>(v@),
                Err(e) => spec_parse_reqval(s@) == Err::<ReqValView, _>(e@),
            }),
        decreases s@.len(), 0nat,
    {
        let n = s.unicode_len();
        if n == 0 {
            return Err(ParseErr::NotEnoughArgs);
        }
        let c0 = s.get_char(0);
        if c0 == '[' {
            let tail = s.substring_char(1, n);
            match split_bracket(tail) {
                Err(e) => Err(e),
                Ok((req, skip)) => {
                    let after = s.substring_char(skip + 1, n);
                    let trimmed = trim_of(after);
                    if trimmed.as_str().unicode_len() != 0 {
                        return Err(ParseErr::EarlyCloseBracket);
                    }
                    match Requirements::from_str(req.as_str()) {
                        Ok(inner) => Ok(ReqVal::Req(Box::new(inner))),
                        Err(e) => Err(e),
                    }
                },
            }
        } else if c0 == '!' {
            let tail = s.substring_char(1, n);
            match ReqVal::from_str(tail) {
                Ok(v) => Ok(ReqVal::Not(Box::new(v))),
                Err(e) => Err(e),
            }
        } else {
            match split_comparison(s) {
                Ok((a, c, b)) => {
                    let av = match CompVal::from_str(a.as_str()) {
                        Ok(v) => v,
                        Err(e) => return Err(e),
                    };
                    let cv = match Comparison::from_str(c.as_str()) {
                        Ok(v) => v,
                        Err(e) => return Err(e),
                    };
                    let bv = match CompVal::from_str(b.as_str()) {
                        Ok(v) => v,
                        Err(e) => return Err(e),
                    };
                    Ok(ReqVal::Comparison(av, cv, bv))
                },
                Err(_) => Ok(ReqVal::Tag(trim_of(s))),
            }
        }
    }
}

impl Requirements {
    /// Parse a whole requirement expression.
    #[verifier::loop_isolation(false)]
    pub fn from_str(s: &str) -> (r: Result<Requirements, ParseErr>)
        ensures
            (match r {
                Ok(v) => spec_parse_requirements(s@) == Ok::<_, ParseErrView>(v@),
                Err(e) => spec_parse_requirements(s@) == Err::<ReqsView, _>(e@),
            }),
        decreases s@.len(), 1nat,
    {
        let t = strip_spaces_of(s);
        proof {
            lemma_strip_len(s@);
        }
        let tn = t.as_str().unicode_len();
        let cut = find_op_idx(t.as_str(), tn);
        let head_str = t.as_str().substring_char(0, cut);
        let head = match ReqVal::from_str(head_str) {
            Ok(h) => h,
            Err(e) => return Err(e),
        };
        let rest = t.as_str().substring_char(cut, tn);
        let rn = rest.unicode_len();
        let mut i: usize = 0;
        let mut last: usize = 1;
        let mut depth: i128 = 0;
        let mut ops: Option<ReqOps> = None;
        let mut body: Vec<(ReqOps, ReqVal)> = Vec::new();
        proof {
            assert(spec_body_view(body@) =~= Seq::<(ReqOps, ReqValView)>::empty());
        }
        while i < rn
            invariant
                0 <= i <= rn,
                rn == rest@.len(),
                rest@.len() <= s@.len(),
                -(i as int) <= depth <= i,
                ops is Some ==> 1 <= last <= i,
                ops is None ==> last == 1,
                spec_parse_req_body(
                    s@.len(),
                    rest@,
                    0,
                    1,
                    0,
                    None,
                    Seq::empty(),
                ) == spec_parse_req_body(
                    s@.len(),
                    rest@,
                    i as int,
                    last as int,
                    depth as int,
                    ops,
                    spec_body_view(body@),
                ),
            decreases rn - i,
        {
            let c = rest.get_char(i);
            if (c == '&' || c == '|') && depth == 0 {
                let newop = if c == '&' {
                    ReqOps::And
                } else {
                    ReqOps::Or
                };
                match ops {
                    None => {
                        ops = Some(newop);
                        last = i + 1;
                    },
                    Some(op) => {
                        let piece = rest.substring_char(last, i);
                        let v = match ReqVal::from_str(piece) {
                            Ok(v) => v,
                            Err(e) => return Err(e),
                        };
                        let ghost prevb = body@;
                        body.push((op, v));
                        proof {
                            lemma_body_view_push(prevb, (op, v));
                        }
                        ops = Some(newop);
                        last = i + 1;
                    },
                }
            } else {
                if c == '[' {
                    depth = depth + 1;
                } else if c == ']' {
                    depth = depth - 1;
                }
                if ops.is_none() {
                    return Err(ParseErr::InvalidReqOps);
                }
            }
            i = i + 1;
        }
        match ops {
            None => {},
            Some(op) => {
                let piece = rest.substring_char(last, rn);
                let v = match ReqVal::from_str(piece) {
                    Ok(v) => v,
                    Err(e) => return Err(e),
                };
                let ghost prevb = body@;
                body.push((op, v));
                proof {
                    lemma_body_view_push(prevb, (op, v));
                }
            },
        }
        Ok(Requirements { head, body })
    }
}

pub proof fn lemma_body_view_push(body: Seq<(ReqOps, ReqVal)>, x: (ReqOps, ReqVal))
    ensures
        spec_body_view(body.push(x)) == spec_body_view(body).push(
            (x.0, spec_reqval_view(x.1)),
        ),
    decreases body.len(),
{
    let a = spec_body_view(body.push(x));
    let b = spec_body_view(body).push((x.0, spec_reqval_view(x.1)));
    lemma_body_view_len(body.push(x));
    lemma_body_view_len(body);
    assert forall|i: int| 0 <= i < a.len() implies a[i] == b[i] by {
        lemma_body_view_index(body.push(x), i);
        if i < body.len() {
            lemma_body_view_index(body, i);
            assert(body.push(x)[i] == body[i]);
        } else {
            assert(body.push(x)[i] == x);
        }
    }
    assert(a =~= b);
}

pub proof fn lemma_body_view_len(body: Seq<(ReqOps, ReqVal)>)
    ensures
        spec_body_view(body).len() == body.len(),
    decreases body.len(),
{
    if body.len() > 0 {
        lemma_body_view_len(body.drop_first());
    }
}

impl ReqVal {
    /// A copy with the same mathematical image.
    pub fn duplicate(&self) -> (r: ReqVal)
        ensures
            r@ == self@,
        decreases *self, 0nat,
    {
        match self {
            ReqVal::Not(b) => ReqVal::Not(Box::new(b.duplicate())),
            ReqVal::Req(b) => ReqVal::Req(Box::new(b.duplicate())),
            ReqVal::Tag(s) => ReqVal::Tag(s.clone()),
            ReqVal::Comparison(a, c, b) => ReqVal::Comparison(*a, *c, *b),
        }
    }
}

impl Requirements {
    /// A copy with the same mathematical image.
    pub fn duplicate(&self) -> (r: Requirements)
        ensures
            r@ == self@,
        decreases *self, 1nat,
    {
        let head = self.head.duplicate();
        let mut body: Vec<(ReqOps, ReqVal)> = Vec::new();
        let n = self.body.len();
        let mut i: usize = 0;
        while i < n
            invariant
                0 <= i <= n,
                n == self.body.len(),
                body@.len() == i,
                forall|k: int|
                    0 <= k < i ==> (#[trigger] body@[k]).0 == self.body@[k].0
                        && spec_reqval_view(body@[k].1) == spec_reqval_view(self.body@[k].1),
            decreases n - i,
        {
            let op = self.body[i].0;
            let v = self.body[i].1.duplicate();
            body.push((op, v));
            i = i + 1;
        }
        proof {
            lemma_body_view_eq(body@, self.body@);
        }
        Requirements { head, body }
    }
}

/// Two operator chains whose entries have equal operators and equal term
/// images have the same image.
pub proof fn lemma_body_view_eq(a: Seq<(ReqOps, ReqVal)>, b: Seq<(ReqOps, ReqVal)>)
    requires
        a.len() == b.len(),
        forall|k: int|
            0 <= k < a.len() ==> (#[trigger] a[k]).0 == b[k].0 && spec_reqval_view(a[k].1)
                == spec_reqval_view(b[k].1),
    ensures
        spec_body_view(a) == spec_body_view(b),
{
    lemma_body_view_len(a);
    lemma_body_view_len(b);
    assert forall|k: int| 0 <= k < spec_body_view(a).len() implies spec_body_view(a)[k]
        == spec_body_view(b)[k] by {
        lemma_body_view_index(a, k);
        lemma_body_view_index(b, k);
    }
    assert(spec_body_view(a) =~= spec_body_view(b));
}

/// A negated tag term is true exactly when the tag is absent from the
/// player's acquired tags.
pub proof fn lemma_not_tag_is_absence(t: Seq<char>, p: PlayerView)
    ensures
        spec_eval_reqval(ReqValView::Not(Box::new(ReqValView::Tag(t))), p)
            == !spec_has_text(p.acquired_tags, t),
{
    assert(spec_eval_reqval(ReqValView::Tag(t), p) == spec_has_text(p.acquired_tags, t));
}

/// A bracketed sub-expression acts as a single term of the outer fold:
/// a group followed by one or-term evaluates as the whole group's value
/// combined with the term's value.
pub proof fn lemma_group_is_one_term(inner: ReqsView, c: ReqValView, p: PlayerView)
    ensures
        spec_eval_reqs(
            ReqsView {
                head: ReqValView::Req(Box::new(inner)),
                body: seq![(ReqOps::Or, c)],
            },
            p,
        ) == (spec_eval_reqs(inner, p) || spec_eval_reqval(c, p)),
{
    let r = ReqsView { head: ReqValView::Req(Box::new(inner)), body: seq![(ReqOps::Or, c)] };
    let acc = spec_eval_reqval(r.head, p);
    assert(spec_eval_body(r.body, 0, acc, p) == spec_eval_body(
        r.body,
        1,
        acc || spec_eval_reqval(c, p),
        p,
    ));
}

pub proof fn lemma_body_view_index(body: Seq<(ReqOps, ReqVal)>, i: int)
    requires
        0 <= i < body.len(),
    ensures
        spec_body_view(body).len() == body.len(),
        spec_body_view(body)[i] == (body[i].0, spec_reqval_view(body[i].1)),
    decreases body.len(),
{
    lemma_body_view_len(body);
    if i > 0 {
        lemma_body_view_index(body.drop_first(), i - 1);
    }
}

} // verus!
