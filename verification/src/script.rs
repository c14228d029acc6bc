//! Branching dialogue scripts: the segment mini-language with its four
//! control directives, and the cursor-based conversation state machine
//! that walks a parsed script.
use vstd::prelude::*;
use vstd::string::{StrSliceExecFns, StringExecFns};
use crate::player::{PlayerData, PlayerView, spec_has_text};
use crate::requirements::{Requirements, ReqsView, spec_reqs_view, spec_eval_reqs,
    spec_parse_requirements};
use crate::parse::{ParseErr, ParseErrView, spec_is_space, is_space, spec_trim,
    trim_of, str_eq, spec_split_bracket, split_bracket,
    lemma_split_bracket_bounds};

verus! {

/// One unit of dialogue: display text, nested option branches, tags to
/// add and remove on entry, and an optional requirement gating it.
#[derive(Debug, PartialEq)]
pub struct Segment {
    pub text: String,
    pub options: Vec<Segment>,
    pub add_tags: Vec<String>,
    pub remove_tags: Vec<String>,
    pub requirements: Option<Requirements>,
}

/// A parsed script: its root segments in order.
#[derive(Debug, PartialEq)]
pub struct Script {
    pub segments: Vec<Segment>,
}

/// The mathematical image of a [`Segment`].
pub struct SegmentView {
    pub text: Seq<char>,
    pub options: Seq<SegmentView>,
    pub add_tags: Seq<Seq<char>>,
    pub remove_tags: Seq<Seq<char>>,
    pub requirements: Option<ReqsView>,
}

/// The mathematical image of a [`Script`].
pub struct ScriptView {
    pub segments: Seq<SegmentView>,
}

pub open spec fn spec_segment_view(s: Segment) -> SegmentView
    decreases s,
{
    SegmentView {
        text: s.text@,
        options: spec_segments_view(s.options@),
        add_tags: s.add_tags.deep_view(),
        remove_tags: s.remove_tags.deep_view(),
        requirements: match s.requirements {
            None => None,
            Some(r) => Some(spec_reqs_view(r)),
        },
    }
}

pub open spec fn spec_segments_view(list: Seq<Segment>) -> Seq<SegmentView>
    decreases list,
{
    if list.len() == 0 {
        Seq::empty()
    } else {
        seq![spec_segment_view(list[0])] + spec_segments_view(list.drop_first())
    }
}

impl View for Segment {
    type V = SegmentView;

    open spec fn view(&self) -> SegmentView {
        spec_segment_view(*self)
    }
}

impl View for Script {
    type V = ScriptView;

    open spec fn view(&self) -> ScriptView {
        ScriptView { segments: spec_segments_view(self.segments@) }
    }
}

pub proof fn lemma_segments_view_len(list: Seq<Segment>)
    ensures
        spec_segments_view(list).len() == list.len(),
    decreases list.len(),
{
    if list.len() > 0 {
        lemma_segments_view_len(list.drop_first());
    }
}

pub proof fn lemma_segments_view_index(list: Seq<Segment>, i: int)
    requires
        0 <= i < list.len(),
    ensures
        spec_segments_view(list).len() == list.len(),
        spec_segments_view(list)[i] == spec_segment_view(list[i]),
    decreases list.len(),
{
    lemma_segments_view_len(list);
    if i > 0 {
        lemma_segments_view_index(list.drop_first(), i - 1);
    }
}

pub proof fn lemma_segments_view_push(list: Seq<Segment>, x: Segment)
    ensures
        spec_segments_view(list.push(x)) == spec_segments_view(list).push(spec_segment_view(x)),
{
    let a = spec_segments_view(list.push(x));
    let b = spec_segments_view(list).push(spec_segment_view(x));
    lemma_segments_view_len(list.push(x));
    lemma_segments_view_len(list);
    assert forall|k: int| 0 <= k < a.len() implies a[k] == b[k] by {
        lemma_segments_view_index(list.push(x), k);
        if k < list.len() {
            lemma_segments_view_index(list, k);
            assert(list.push(x)[k] == list[k]);
        } else {
            assert(list.push(x)[k] == x);
        }
    }
    assert(a =~= b);
}

pub proof fn lemma_segments_view_eq(a: Seq<Segment>, b: Seq<Segment>)
    requires
        a.len() == b.len(),
        forall|k: int|
            0 <= k < a.len() ==> spec_segment_view(#[trigger] a[k]) == spec_segment_view(b[k]),
    ensures
        spec_segments_view(a) == spec_segments_view(b),
{
    lemma_segments_view_len(a);
    lemma_segments_view_len(b);
    assert forall|k: int| 0 <= k < spec_segments_view(a).len() implies spec_segments_view(a)[k]
        == spec_segments_view(b)[k] by {
        lemma_segments_view_index(a, k);
        lemma_segments_view_index(b, k);
    }
    assert(spec_segments_view(a) =~= spec_segments_view(b));
}

impl Segment {
    /// A copy with the same mathematical image.
    #[verifier::loop_isolation(false)]
    pub fn duplicate(&self) -> (r: Segment)
        ensures
            r@ == self@,
        decreases *self,
    {
        let n = self.options.len();
        let mut options: Vec<Segment> = Vec::new();
        let mut i: usize = 0;
        while i < n
            invariant
                0 <= i <= n,
                n == self.options.len(),
                options@.len() == i,
                forall|k: int|
                    0 <= k < i ==> spec_segment_view(#[trigger] options@[k]) == spec_segment_view(
                        self.options@[k],
                    ),
            decreases n - i,
        {
            proof {
                assert(decreases_to!(*self => self.options@[i as int]));
            }
            let d = self.options[i].duplicate();
            options.push(d);
            i = i + 1;
        }
        proof {
            lemma_segments_view_eq(options@, self.options@);
        }
        let mut add_tags: Vec<String> = Vec::new();
        let m = self.add_tags.len();
        let mut j: usize = 0;
        while j < m
            invariant
                0 <= j <= m,
                m == self.add_tags.len(),
                add_tags.deep_view() == self.add_tags.deep_view().subrange(0, j as int),
            decreases m - j,
        {
            let ghost prev = add_tags.deep_view();
            add_tags.push(self.add_tags[j].clone());
            proof {
                assert(add_tags.deep_view() =~= prev.push(self.add_tags.deep_view()[j as int]));
                assert(add_tags.deep_view() =~= self.add_tags.deep_view().subrange(
                    0,
                    j as int + 1,
                ));
            }
            j = j + 1;
        }
        let mut remove_tags: Vec<String> = Vec::new();
        let m2 = self.remove_tags.len();
        let mut j2: usize = 0;
        while j2 < m2
            invariant
                0 <= j2 <= m2,
                m2 == self.remove_tags.len(),
                remove_tags.deep_view() == self.remove_tags.deep_view().subrange(0, j2 as int),
            decreases m2 - j2,
        {
            let ghost prev = remove_tags.deep_view();
            remove_tags.push(self.remove_tags[j2].clone());
            proof {
                assert(remove_tags.deep_view() =~= prev.push(
                    self.remove_tags.deep_view()[j2 as int],
                ));
                assert(remove_tags.deep_view() =~= self.remove_tags.deep_view().subrange(
                    0,
                    j2 as int + 1,
                ));
            }
            j2 = j2 + 1;
        }
        proof {
            assert(self.add_tags.deep_view().subrange(0, m as int) =~= self.add_tags.deep_view());
            assert(self.remove_tags.deep_view().subrange(0, m2 as int)
                =~= self.remove_tags.deep_view());
        }
        let requirements = match &self.requirements {
            None => None,
            Some(r) => Some(r.duplicate()),
        };
        Segment { text: self.text.clone(), options, add_tags, remove_tags, requirements }
    }
}

impl Script {
    /// A copy with the same mathematical image.
    #[verifier::loop_isolation(false)]
    pub fn duplicate(&self) -> (r: Script)
        ensures
            r@ == self@,
    {
        let n = self.segments.len();
        let mut segments: Vec<Segment> = Vec::new();
        let mut i: usize = 0;
        while i < n
            invariant
                0 <= i <= n,
                n == self.segments.len(),
                segments@.len() == i,
                forall|k: int|
                    0 <= k < i ==> spec_segment_view(#[trigger] segments@[k]) == spec_segment_view(
                        self.segments@[k],
                    ),
            decreases n - i,
        {
            let d = self.segments[i].duplicate();
            segments.push(d);
            i = i + 1;
        }
        proof {
            lemma_segments_view_eq(segments@, self.segments@);
        }
        Script { segments }
    }
}

/// The four control directives.
pub open spec fn spec_is_control_word(w: Seq<char>) -> bool {
    w == "$req"@ || w == "$add"@ || w == "$rem"@ || w == "$opt"@
}

/// Whitespace-separated pieces of a tag list.
pub open spec fn spec_split_ws_at(
    s: Seq<char>,
    i: int,
    cur: Seq<char>,
    acc: Seq<Seq<char>>,
) -> Seq<Seq<char>>
    decreases s.len() - i,
    when 0 <= i <= s.len()
{
    if i >= s.len() {
        if cur.len() != 0 {
            acc.push(cur)
        } else {
            acc
        }
    } else if spec_is_space(s[i]) {
        if cur.len() != 0 {
            spec_split_ws_at(s, i + 1, Seq::empty(), acc.push(cur))
        } else {
            spec_split_ws_at(s, i + 1, Seq::empty(), acc)
        }
    } else {
        spec_split_ws_at(s, i + 1, cur.push(s[i]), acc)
    }
}

pub open spec fn spec_split_ws(s: Seq<char>) -> Seq<Seq<char>> {
    spec_split_ws_at(s, 0, Seq::empty(), Seq::empty())
}

/// The display-text filter: backslashes are dropped (each shields the
/// character after it from being dropped in turn), and leading whitespace
/// is removed.
pub open spec fn spec_seg_text_at(
    text: Seq<char>,
    i: int,
    esc: bool,
    trimmed: bool,
    out: Seq<char>,
) -> Seq<char>
    decreases text.len() - i,
    when 0 <= i <= text.len()
{
    if i >= text.len() {
        out
    } else {
        let c = text[i];
        let esc2 = !esc && c == '\\';
        let trimmed2 = trimmed || !spec_is_space(c);
        if esc2 || (!trimmed2 && spec_is_space(c)) {
            spec_seg_text_at(text, i + 1, esc2, trimmed2, out)
        } else {
            spec_seg_text_at(text, i + 1, esc2, trimmed2, out.push(c))
        }
    }
}

pub open spec fn spec_seg_text(text: Seq<char>) -> Seq<char> {
    spec_seg_text_at(text, 0, false, false, Seq::empty())
}

/// Where the next segment ends: scanning for whitespace once a control
/// directive's bracket has been consumed in the current segment. The
/// result is the segment's text and the index the next segment starts at.
pub open spec fn spec_split_next_segment_at(
    s: Seq<char>,
    i: int,
    skip: int,
    word: Seq<char>,
    started: bool,
) -> Result<(Seq<char>, int), ParseErrView>
    decreases s.len() - i,
    when 0 <= i <= s.len()
{
    if i >= s.len() {
        Ok((s, s.len() as int))
    } else if skip > 0 {
        spec_split_next_segment_at(s, i + 1, skip - 1, word, started)
    } else {
        let c = s[i];
        if spec_is_space(c) {
            if started {
                Ok((s.subrange(0, i), i))
            } else {
                spec_split_next_segment_at(s, i + 1, 0, Seq::empty(), started)
            }
        } else if c == '[' && spec_is_control_word(spec_trim(word)) {
            match spec_split_bracket(s.subrange(i + 1, s.len() as int)) {
                Err(e) => Err(e),
                Ok((inner, sk)) => spec_split_next_segment_at(s, i + 1, sk, word.push(c), true),
            }
        } else {
            spec_split_next_segment_at(s, i + 1, 0, word.push(c), started)
        }
    }
}

pub open spec fn spec_split_next_segment(s: Seq<char>) -> Result<(Seq<char>, int), ParseErrView> {
    spec_split_next_segment_at(s, 0, 0, Seq::empty(), false)
}

/// A successful cut is in range, never at the very start unless the text
/// is empty, and the piece is the prefix up to the cut.
pub proof fn lemma_split_next_segment_bounds(s: Seq<char>, i: int, skip: int, word: Seq<char>, started: bool)
    requires
        0 <= i <= s.len(),
        started ==> i >= 1,
    ensures
        (match spec_split_next_segment_at(s, i, skip, word, started) {
            Ok((seg, idx)) => (idx == s.len() && seg == s) || (1 <= idx < s.len() && seg
                == s.subrange(0, idx)),
            Err(_) => true,
        }),
    decreases s.len() - i,
{
    if i < s.len() {
        if skip > 0 {
            lemma_split_next_segment_bounds(s, i + 1, skip - 1, word, started);
        } else {
            let c = s[i];
            if spec_is_space(c) {
                if !started {
                    lemma_split_next_segment_bounds(s, i + 1, 0, Seq::empty(), started);
                }
            } else if c == '[' && spec_is_control_word(spec_trim(word)) {
                match spec_split_bracket(s.subrange(i + 1, s.len() as int)) {
                    Err(_) => {},
                    Ok((inner, sk)) => {
                        lemma_split_next_segment_bounds(s, i + 1, sk, word.push(c), true);
                    },
                }
            } else {
                lemma_split_next_segment_bounds(s, i + 1, 0, word.push(c), started);
            }
        }
    }
}

/// One segment's scan: `word` gathers the characters since the last
/// whitespace, `esc_word` says whether the last thing seen was a control
/// block (so the following whitespace does not flush the word into the
/// text), and the four directive lists accumulate.
pub open spec fn spec_seg_scan(
    s: Seq<char>,
    i: int,
    skip: int,
    word: Seq<char>,
    lwc: bool,
    text: Seq<char>,
    req: Option<ReqsView>,
    add: Seq<Seq<char>>,
    rem: Seq<Seq<char>>,
    opts: Seq<SegmentView>,
) -> Result<SegmentView, ParseErrView>
    decreases s.len(), 0nat, s.len() - i,
    when 0 <= i <= s.len()
    via seg_scan_dec
{
    if i >= s.len() {
        Ok(
            SegmentView {
                text: spec_seg_text(text),
                options: opts,
                add_tags: add,
                remove_tags: rem,
                requirements: req,
            },
        )
    } else if skip > 0 {
        spec_seg_scan(s, i + 1, skip - 1, word, lwc, text, req, add, rem, opts)
    } else {
        let c = s[i];
        if spec_is_space(c) {
            if !lwc {
                spec_seg_scan(
                    s,
                    i + 1,
                    0,
                    seq![c],
                    lwc,
                    text + word,
                    req,
                    add,
                    rem,
                    opts,
                )
            } else {
                spec_seg_scan(s, i + 1, 0, word.push(c), false, text, req, add, rem, opts)
            }
        } else if c == '[' {
            let w = spec_trim(word);
            if w == "$req"@ {
                match spec_split_bracket(s.subrange(i + 1, s.len() as int)) {
                    Err(e) => Err(e),
                    Ok((inner, sk)) => match spec_parse_requirements(inner) {
                        Err(e) => Err(e),
                        Ok(r) => spec_seg_scan(
                            s,
                            i + 1,
                            sk,
                            word.push(c),
                            true,
                            text,
                            Some(r),
                            add,
                            rem,
                            opts,
                        ),
                    },
                }
            } else if w == "$add"@ {
                match spec_split_bracket(s.subrange(i + 1, s.len() as int)) {
                    Err(e) => Err(e),
                    Ok((inner, sk)) => spec_seg_scan(
                        s,
                        i + 1,
                        sk,
                        word.push(c),
                        true,
                        text,
                        req,
                        add + spec_split_ws(inner),
                        rem,
                        opts,
                    ),
                }
            } else if w == "$rem"@ {
                match spec_split_bracket(s.subrange(i + 1, s.len() as int)) {
                    Err(e) => Err(e),
                    Ok((inner, sk)) => spec_seg_scan(
                        s,
                        i + 1,
                        sk,
                        word.push(c),
                        true,
                        text,
                        req,
                        add,
                        rem + spec_split_ws(inner),
                        opts,
                    ),
                }
            } else if w == "$opt"@ {
                match spec_split_bracket(s.subrange(i + 1, s.len() as int)) {
                    Err(e) => Err(e),
                    Ok((inner, sk)) => match spec_split_segments(inner) {
                        Err(e) => Err(e),
                        Ok(sub) => spec_seg_scan(
                            s,
                            i + 1,
                            sk,
                            word.push(c),
                            true,
                            text,
                            req,
                            add,
                            rem,
                            opts + sub,
                        ),
                    },
                }
            } else {
                spec_seg_scan(s, i + 1, 0, word.push(c), lwc, text, req, add, rem, opts)
            }
        } else {
            spec_seg_scan(s, i + 1, 0, word.push(c), lwc, text, req, add, rem, opts)
        }
    }
}

/// One segment parsed from its text.
pub open spec fn spec_parse_segment(s: Seq<char>) -> Result<SegmentView, ParseErrView>
    decreases s.len(), 0nat, s.len() + 1,
{
    spec_seg_scan(
        s,
        0,
        0,
        Seq::empty(),
        false,
        Seq::empty(),
        None,
        Seq::empty(),
        Seq::empty(),
        Seq::empty(),
    )
}

/// All segments of a text, cut one after another; pieces that trim to
/// nothing are skipped.
pub open spec fn spec_split_segments(s: Seq<char>) -> Result<Seq<SegmentView>, ParseErrView>
    decreases s.len(), 1nat, 0nat,
    via split_segments_dec
{
    match spec_split_next_segment(s) {
        Err(e) => Err(e),
        Ok((seg, i)) => if spec_trim(seg).len() != 0 {
            match spec_parse_segment(seg) {
                Err(e) => Err(e),
                Ok(v) => if i >= s.len() {
                    Ok(seq![v])
                } else {
                    match spec_split_segments(s.subrange(i, s.len() as int)) {
                        Err(e) => Err(e),
                        Ok(rest) => Ok(seq![v] + rest),
                    }
                },
            }
        } else {
            if i >= s.len() {
                Ok(Seq::empty())
            } else {
                spec_split_segments(s.subrange(i, s.len() as int))
            }
        },
    }
}

#[via_fn]
proof fn seg_scan_dec(
    s: Seq<char>,
    i: int,
    skip: int,
    word: Seq<char>,
    lwc: bool,
    text: Seq<char>,
    req: Option<ReqsView>,
    add: Seq<Seq<char>>,
    rem: Seq<Seq<char>>,
    opts: Seq<SegmentView>,
) {
    if 0 <= i < s.len() {
        lemma_split_bracket_bounds(s.subrange(i + 1, s.len() as int));
    }
}

#[via_fn]
proof fn split_segments_dec(s: Seq<char>) {
    lemma_split_next_segment_bounds(s, 0, 0, Seq::empty(), false);
}

fn is_control(w: &str) -> (r: bool)
    ensures
        r == spec_is_control_word(w@),
{
    str_eq(w, "$req") || str_eq(w, "$add") || str_eq(w, "$rem") || str_eq(w, "$opt")
}

/// Whitespace-separated pieces of a tag list.
#[verifier::loop_isolation(false)]
fn split_ws(s: &str) -> (r: Vec<String>)
    ensures
        r.deep_view() == spec_split_ws(s@),
{
    let n = s.unicode_len();
    let mut cur = String::new();
    let mut acc: Vec<String> = Vec::new();
    proof {
        assert(acc.deep_view() =~= Seq::<Seq<char>>::empty());
    }
    let mut i: usize = 0;
    while i < n
        invariant
            0 <= i <= n,
            spec_split_ws(s@) == spec_split_ws_at(s@, i as int, cur@, acc.deep_view()),
        decreases n - i,
    {
        let c = s.get_char(i);
        let ghost prev_cur = cur@;
        let ghost prev_acc = acc.deep_view();
        if is_space(c) {
            if cur.as_str().unicode_len() != 0 {
                acc.push(cur);
                cur = String::new();
                proof {
                    assert(acc.deep_view() =~= prev_acc.push(prev_cur));
                    assert(cur@ =~= Seq::<char>::empty());
                }
            } else {
                proof {
                    assert(cur@ =~= Seq::<char>::empty());
                }
            }
        } else {
            let piece = s.substring_char(i, i + 1);
            cur.append(piece);
            proof {
                assert(cur@ =~= prev_cur.push(s@[i as int]));
            }
        }
        i = i + 1;
    }
    let ghost prev_acc = acc.deep_view();
    if cur.as_str().unicode_len() != 0 {
        let ghost prev_cur = cur@;
        acc.push(cur);
        proof {
            assert(acc.deep_view() =~= prev_acc.push(prev_cur));
        }
    }
    acc
}

/// The display-text filter.
#[verifier::loop_isolation(false)]
fn seg_text_of(text: &str) -> (r: String)
    ensures
        r@ == spec_seg_text(text@),
{
    let n = text.unicode_len();
    let mut out = String::new();
    let mut esc = false;
    let mut trimmed = false;
    proof {
        assert(out@ =~= Seq::<char>::empty());
    }
    let mut i: usize = 0;
    while i < n
        invariant
            0 <= i <= n,
            spec_seg_text(text@) == spec_seg_text_at(text@, i as int, esc, trimmed, out@),
        decreases n - i,
    {
        let c = text.get_char(i);
        let esc2 = !esc && c == '\\';
        let trimmed2 = trimmed || !is_space(c);
        if !(esc2 || (!trimmed2 && is_space(c))) {
            let ghost prev = out@;
            let piece = text.substring_char(i, i + 1);
            out.append(piece);
            proof {
                assert(out@ =~= prev.push(text@[i as int]));
            }
        }
        esc = esc2;
        trimmed = trimmed2;
        i = i + 1;
    }
    out
}

/// Find where the next segment of a script ends: the segment's text and
/// the index the following segment starts at.
#[verifier::loop_isolation(false)]
pub fn split_next_segment(s: &str) -> (r: Result<(String, usize), ParseErr>)
    ensures
        (match r {
            Ok((seg, idx)) => spec_split_next_segment(s@) == Ok::<_, ParseErrView>(
                (seg@, idx as int),
            ) && ((idx == s@.len() && seg@ == s@) || (1 <= idx < s@.len())),
            Err(e) => spec_split_next_segment(s@) == Err::<(Seq<char>, int), _>(e@),
        }),
{
    let n = s.unicode_len();
    let mut i: usize = 0;
    let mut skip: usize = 0;
    let mut word = String::new();
    let mut started = false;
    proof {
        assert(word@ =~= Seq::<char>::empty());
        lemma_split_next_segment_bounds(s@, 0, 0, Seq::empty(), false);
    }
    while i < n
        invariant
            0 <= i <= n,
            started ==> i >= 1,
            spec_split_next_segment(s@) == spec_split_next_segment_at(
                s@,
                i as int,
                skip as int,
                word@,
                started,
            ),
        decreases n - i,
    {
        if skip > 0 {
            skip = skip - 1;
        } else {
            let c = s.get_char(i);
            if is_space(c) {
                if started {
                    let seg = s.substring_char(0, i).to_owned();
                    return Ok((seg, i));
                }
                word = String::new();
                proof {
                    assert(word@ =~= Seq::<char>::empty());
                }
            } else {
                let trimmed = trim_of(word.as_str());
                if c == '[' && is_control(trimmed.as_str()) {
                    let tail = s.substring_char(i + 1, n);
                    match split_bracket(tail) {
                        Err(e) => return Err(e),
                        Ok((_, sk)) => {
                            skip = sk;
                            started = true;
                        },
                    }
                }
                let ghost prev = word@;
                let piece = s.substring_char(i, i + 1);
                word.append(piece);
                proof {
                    assert(word@ =~= prev.push(s@[i as int]));
                }
            }
        }
        i = i + 1;
    }
    Ok((s.to_owned(), n))
}

impl Segment {
    /// Parse one segment's text.
    #[verifier::loop_isolation(false)]
    #[verifier::rlimit(100)]
    pub fn from_str(s: &str) -> (res: Result<Segment, ParseErr>)
        ensures
            (match res {
                Ok(v) => spec_parse_segment(s@) == Ok::<_, ParseErrView>(v@),
                Err(e) => spec_parse_segment(s@) == Err::<SegmentView, _>(e@),
            }),
        decreases s@.len(), 0nat,
    {
        let n = s.unicode_len();
        let mut i: usize = 0;
        let mut skip: usize = 0;
        let mut word = String::new();
        let mut lwc = false;
        let mut text = String::new();
        let mut req: Option<Requirements> = None;
        let mut add: Vec<String> = Vec::new();
        let mut rem: Vec<String> = Vec::new();
        let mut opts: Vec<Segment> = Vec::new();
        proof {
            assert(word@ =~= Seq::<char>::empty());
            assert(text@ =~= Seq::<char>::empty());
            assert(add.deep_view() =~= Seq::<Seq<char>>::empty());
            assert(rem.deep_view() =~= Seq::<Seq<char>>::empty());
            assert(spec_segments_view(opts@) =~= Seq::<SegmentView>::empty());
        }
        while i < n
            invariant
                0 <= i <= n,
                n == s@.len(),
                spec_parse_segment(s@) == spec_seg_scan(
                    s@,
                    i as int,
                    skip as int,
                    word@,
                    lwc,
                    text@,
                    (match req {
                        Some(r) => Some(spec_reqs_view(r)),
                        None => None::<ReqsView>,
                    }),
                    add.deep_view(),
                    rem.deep_view(),
                    spec_segments_view(opts@),
                ),
            decreases n - i,
        {
            if skip > 0 {
                skip = skip - 1;
            } else {
                let c = s.get_char(i);
                let ghost prev_word = word@;
                if is_space(c) {
                    if !lwc {
                        text.append(word.as_str());
                        word = String::new();
                        let piece = s.substring_char(i, i + 1);
                        word.append(piece);
                        proof {
                            assert(word@ =~= seq![s@[i as int]]);
                        }
                    } else {
                        let piece = s.substring_char(i, i + 1);
                        word.append(piece);
                        lwc = false;
                        proof {
                            assert(word@ =~= prev_word.push(s@[i as int]));
                        }
                    }
                } else {
                    if c == '[' {
                        let w = trim_of(word.as_str());
                        if str_eq(w.as_str(), "$req") {
                            let tail = s.substring_char(i + 1, n);
                            let (inner, sk) = match split_bracket(tail) {
                                Ok(v) => v,
                                Err(e) => return Err(e),
                            };
                            let r = match Requirements::from_str(inner.as_str()) {
                                Ok(v) => v,
                                Err(e) => return Err(e),
                            };
                            skip = sk;
                            req = Some(r);
                            lwc = true;
                        } else if str_eq(w.as_str(), "$add") {
                            let tail = s.substring_char(i + 1, n);
                            let (inner, sk) = match split_bracket(tail) {
                                Ok(v) => v,
                                Err(e) => return Err(e),
                            };
                            let tags = split_ws(inner.as_str());
                            let m = tags.len();
                            let ghost old_add = add.deep_view();
                            let mut j: usize = 0;
                            while j < m
                                invariant
                                    0 <= j <= m,
                                    m == tags.len(),
                                    add.deep_view() == old_add + tags.deep_view().subrange(
                                        0,
                                        j as int,
                                    ),
                                decreases m - j,
                            {
                                let ghost prev = add.deep_view();
                                add.push(tags[j].clone());
                                proof {
                                    assert(add.deep_view() =~= prev.push(
                                        tags.deep_view()[j as int],
                                    ));
                                    assert(old_add + tags.deep_view().subrange(0, j as int + 1)
                                        =~= prev.push(tags.deep_view()[j as int]));
                                }
                                j = j + 1;
                            }
                            proof {
                                assert(tags.deep_view().subrange(0, m as int)
                                    =~= tags.deep_view());
                            }
                            skip = sk;
                            lwc = true;
                        } else if str_eq(w.as_str(), "$rem") {
                            let tail = s.substring_char(i + 1, n);
                            let (inner, sk) = match split_bracket(tail) {
                                Ok(v) => v,
                                Err(e) => return Err(e),
                            };
                            let tags = split_ws(inner.as_str());
                            let m = tags.len();
                            let ghost old_rem = rem.deep_view();
                            let mut j: usize = 0;
                            while j < m
                                invariant
                                    0 <= j <= m,
                                    m == tags.len(),
                                    rem.deep_view() == old_rem + tags.deep_view().subrange(
                                        0,
                                        j as int,
                                    ),
                                decreases m - j,
                            {
                                let ghost prev = rem.deep_view();
                                rem.push(tags[j].clone());
                                proof {
                                    assert(rem.deep_view() =~= prev.push(
                                        tags.deep_view()[j as int],
                                    ));
                                    assert(old_rem + tags.deep_view().subrange(0, j as int + 1)
                                        =~= prev.push(tags.deep_view()[j as int]));
                                }
                                j = j + 1;
                            }
                            proof {
                                assert(tags.deep_view().subrange(0, m as int)
                                    =~= tags.deep_view());
                            }
                            skip = sk;
                            lwc = true;
                        } else if str_eq(w.as_str(), "$opt") {
                            let tail = s.substring_char(i + 1, n);
                            let (inner, sk) = match split_bracket(tail) {
                                Ok(v) => v,
                                Err(e) => return Err(e),
                            };
                            let sub = match split_segments(inner.as_str()) {
                                Ok(v) => v,
                                Err(e) => return Err(e),
                            };
                            let m = sub.len();
                            let ghost old_opts = spec_segments_view(opts@);
                            let ghost subv = spec_segments_view(sub@);
                            proof {
                                lemma_segments_view_len(sub@);
                            }
                            let mut j: usize = 0;
                            while j < m
                                invariant
                                    0 <= j <= m,
                                    m == sub.len(),
                                    subv == spec_segments_view(sub@),
                                    subv.len() == m,
                                    spec_segments_view(opts@) == old_opts + subv.subrange(
                                        0,
                                        j as int,
                                    ),
                                decreases m - j,
                            {
                                let ghost prev = opts@;
                                let d = sub[j].duplicate();
                                opts.push(d);
                                proof {
                                    lemma_segments_view_push(prev, opts@[prev.len() as int]);
                                    lemma_segments_view_index(sub@, j as int);
                                    assert(old_opts + subv.subrange(0, j as int + 1)
                                        =~= spec_segments_view(prev).push(subv[j as int]));
                                }
                                j = j + 1;
                            }
                            proof {
                                assert(subv.subrange(0, m as int) =~= subv);
                            }
                            skip = sk;
                            lwc = true;
                        }
                    }
                    let ghost prev = word@;
                    let piece = s.substring_char(i, i + 1);
                    word.append(piece);
                    proof {
                        assert(word@ =~= prev.push(s@[i as int]));
                    }
                }
            }
            i = i + 1;
        }
        let parsed_text = seg_text_of(text.as_str());
        Ok(Segment { text: parsed_text, options: opts, add_tags: add, remove_tags: rem, requirements: req })
    }
}

/// Cut a script text into segments; pieces that trim to nothing are
/// skipped.
#[verifier::loop_isolation(false)]
pub fn split_segments(s: &str) -> (res: Result<Vec<Segment>, ParseErr>)
    ensures
        (match res {
            Ok(v) => spec_split_segments(s@) == Ok::<_, ParseErrView>(spec_segments_view(v@)),
            Err(e) => spec_split_segments(s@) == Err::<Seq<SegmentView>, _>(e@),
        }),
    decreases s@.len(), 1nat,
{
    let mut cur: String = s.to_owned();
    let mut done: Vec<Segment> = Vec::new();
    proof {
        assert(spec_segments_view(done@) =~= Seq::<SegmentView>::empty());
        assert(Seq::<SegmentView>::empty() + spec_segments_view(done@) =~= spec_segments_view(
            done@,
        ));
    }
    loop
        invariant
            cur@.len() <= s@.len(),
            (match spec_split_segments(cur@) {
                Ok(tail) => spec_split_segments(s@) == Ok::<_, ParseErrView>(
                    spec_segments_view(done@) + tail,
                ),
                Err(e) => spec_split_segments(s@) == Err::<Seq<SegmentView>, _>(e),
            }),
        decreases cur@.len(),
    {
        let cn = cur.as_str().unicode_len();
        let (seg, idx) = match split_next_segment(cur.as_str()) {
            Ok(v) => v,
            Err(e) => return Err(e),
        };
        proof {
            lemma_split_next_segment_bounds(cur@, 0, 0, Seq::empty(), false);
        }
        let trimmed = trim_of(seg.as_str());
        if trimmed.as_str().unicode_len() != 0 {
            let v = match Segment::from_str(seg.as_str()) {
                Ok(v) => v,
                Err(e) => return Err(e),
            };
            let ghost prev = done@;
            done.push(v);
            proof {
                lemma_segments_view_push(prev, done@[prev.len() as int]);
            }
            if idx >= cn {
                proof {
                    assert(spec_segments_view(prev) + seq![
                        spec_segment_view(done@[prev.len() as int]),
                    ] =~= spec_segments_view(done@));
                }
                return Ok(done);
            }
            proof {
                assert(spec_segments_view(prev) + (seq![
                    spec_segment_view(done@[prev.len() as int]),
                ] + (match spec_split_segments(cur@.subrange(idx as int, cn as int)) {
                    Ok(t) => t,
                    Err(_) => Seq::empty(),
                })) =~= spec_segments_view(done@) + (match spec_split_segments(
                    cur@.subrange(idx as int, cn as int),
                ) {
                    Ok(t) => t,
                    Err(_) => Seq::empty(),
                }));
            }
        } else {
            if idx >= cn {
                proof {
                    assert(spec_segments_view(done@) + Seq::<SegmentView>::empty()
                        =~= spec_segments_view(done@));
                }
                return Ok(done);
            }
        }
        cur = cur.as_str().substring_char(idx, cn).to_owned();
    }
}

/// The per-conversation cursor: a parsed script, the current root
/// segment, and the path of option choices descending into it.
pub struct ScriptReaderData {
    pub script: Script,
    pub index: usize,
    pub option_index: Vec<usize>,
}

/// The conversation state machine: nothing, or an active cursor.
pub struct ScriptReader {
    script_data: Option<ScriptReaderData>,
}

/// The mathematical image of a [`ScriptReaderData`].
pub struct ReaderDataView {
    pub script: ScriptView,
    pub index: int,
    pub path: Seq<usize>,
}

impl View for ScriptReader {
    type V = Option<ReaderDataView>;

    closed spec fn view(&self) -> Option<ReaderDataView> {
        match self.script_data {
            None => None,
            Some(d) => Some(
                ReaderDataView { script: d.script@, index: d.index as int, path: d.option_index@ },
            ),
        }
    }
}

/// The segment the path points at inside a root segment.
pub open spec fn spec_cursor(seg: SegmentView, path: Seq<usize>) -> SegmentView
    decreases path.len(),
{
    if path.len() == 0 {
        seg
    } else {
        spec_cursor(seg.options[path[0] as int], path.drop_first())
    }
}

/// Every step of the path stays within the options it descends into.
pub open spec fn spec_path_ok(seg: SegmentView, path: Seq<usize>) -> bool
    decreases path.len(),
{
    path.len() == 0 || ((path[0] as int) < seg.options.len() && spec_path_ok(
        seg.options[path[0] as int],
        path.drop_first(),
    ))
}

/// A reader is well formed when inactive, or when its root index and its
/// option path are in bounds.
pub open spec fn spec_reader_wf(v: Option<ReaderDataView>) -> bool {
    match v {
        None => true,
        Some(d) => 0 <= d.index < d.script.segments.len() && spec_path_ok(
            d.script.segments[d.index],
            d.path,
        ),
    }
}

pub open spec fn spec_reader_cursor(d: ReaderDataView) -> SegmentView {
    spec_cursor(d.script.segments[d.index], d.path)
}

/// The option texts of the active segment, with a synthetic go-back
/// entry appended only when the path is non-empty and the segment
/// mutates no tags.
pub open spec fn spec_current_options(v: Option<ReaderDataView>) -> Seq<Seq<char>> {
    match v {
        None => Seq::empty(),
        Some(d) => {
            let seg = spec_reader_cursor(d);
            let base = Seq::new(seg.options.len(), |k: int| seg.options[k].text);
            if d.path.len() != 0 && seg.add_tags.len() == 0 && seg.remove_tags.len() == 0 {
                base.push("[Go Back]"@)
            } else {
                base
            }
        },
    }
}

/// Whether a segment's requirement, if any, holds of the player.
pub open spec fn spec_segment_valid(seg: SegmentView, p: PlayerView) -> bool {
    match seg.requirements {
        None => true,
        Some(r) => spec_eval_reqs(r, p),
    }
}

/// Advance to the next root segment whose requirement holds, ending the
/// conversation when the roots run out.
pub open spec fn spec_advance_root(script: ScriptView, index: int, p: PlayerView) -> Option<
    ReaderDataView,
>
    decreases script.segments.len() - index,
    when 0 <= index
{
    if index >= script.segments.len() {
        None
    } else if spec_segment_valid(script.segments[index], p) {
        Some(ReaderDataView { script, index, path: Seq::empty() })
    } else {
        spec_advance_root(script, index + 1, p)
    }
}

/// Player state with tags appended.
pub open spec fn spec_with_tags(p: PlayerView, tags: Seq<Seq<char>>) -> PlayerView {
    PlayerView { acquired_tags: p.acquired_tags + tags, ..p }
}

/// The whole advance transition: the current segment's add-tags are
/// applied first; with options shown, the synthetic index pops the path
/// (a pop on an empty path changes nothing) and any other selection
/// pushes it, descending once more automatically when the new segment
/// shows no options; with no options shown, the root index advances past
/// any segments whose requirements fail.
pub open spec fn spec_next(v: Option<ReaderDataView>, selection: usize, p: PlayerView) -> (
    Option<ReaderDataView>,
    PlayerView,
) {
    match v {
        None => (None, p),
        Some(d) => {
            let seg = spec_reader_cursor(d);
            let p2 = spec_with_tags(p, seg.add_tags);
            if spec_current_options(v).len() != 0 {
                if seg.options.len() == selection {
                    let path2 = if d.path.len() == 0 {
                        d.path
                    } else {
                        d.path.drop_last()
                    };
                    (Some(ReaderDataView { path: path2, ..d }), p2)
                } else {
                    let d2 = ReaderDataView { path: d.path.push(selection), ..d };
                    if spec_current_options(Some(d2)).len() == 0 {
                        let seg2 = spec_reader_cursor(d2);
                        let p3 = spec_with_tags(p2, seg2.add_tags);
                        (spec_advance_root(d.script, d.index + 1, p3), p3)
                    } else {
                        (Some(d2), p2)
                    }
                }
            } else {
                (spec_advance_root(d.script, d.index + 1, p2), p2)
            }
        },
    }
}

pub proof fn lemma_path_ok_drop_last(seg: SegmentView, path: Seq<usize>)
    requires
        spec_path_ok(seg, path),
        path.len() > 0,
    ensures
        spec_path_ok(seg, path.drop_last()),
    decreases path.len(),
{
    if path.len() == 1 {
        assert(path.drop_last() =~= Seq::<usize>::empty());
    } else {
        assert(path.drop_last().drop_first() =~= path.drop_first().drop_last());
        assert(path.drop_last()[0] == path[0]);
        lemma_path_ok_drop_last(seg.options[path[0] as int], path.drop_first());
    }
}

pub proof fn lemma_cursor_push(seg: SegmentView, path: Seq<usize>, j: usize)
    requires
        spec_path_ok(seg, path),
        (j as int) < spec_cursor(seg, path).options.len(),
    ensures
        spec_path_ok(seg, path.push(j)),
        spec_cursor(seg, path.push(j)) == spec_cursor(seg, path).options[j as int],
    decreases path.len(),
{
    if path.len() == 0 {
        assert(path.push(j).drop_first() =~= Seq::<usize>::empty());
        assert(path.push(j)[0] == j);
        assert(spec_path_ok(seg.options[j as int], Seq::<usize>::empty()));
        assert(spec_cursor(seg.options[j as int], Seq::<usize>::empty()) == seg.options[
            j as int
        ]);
    } else {
        assert(path.push(j).drop_first() =~= path.drop_first().push(j));
        assert(path.push(j)[0] == path[0]);
        lemma_cursor_push(seg.options[path[0] as int], path.drop_first(), j);
    }
}

/// Copy a list of indices.
#[verifier::loop_isolation(false)]
fn copy_usizes(v: &Vec<usize>) -> (r: Vec<usize>)
    ensures
        r@ == v@,
{
    let n = v.len();
    let mut out: Vec<usize> = Vec::new();
    let mut i: usize = 0;
    while i < n
        invariant
            0 <= i <= n,
            out@ == v@.subrange(0, i as int),
        decreases n - i,
    {
        out.push(v[i]);
        proof {
            assert(out@ =~= v@.subrange(0, i as int + 1));
        }
        i = i + 1;
    }
    proof {
        assert(v@.subrange(0, n as int) =~= v@);
    }
    out
}

/// Copy a list of texts.
#[verifier::loop_isolation(false)]
fn clone_texts(v: &Vec<String>) -> (r: Vec<String>)
    ensures
        r.deep_view() == v.deep_view(),
{
    let n = v.len();
    let mut out: Vec<String> = Vec::new();
    proof {
        assert(out.deep_view() =~= v.deep_view().subrange(0, 0));
    }
    let mut i: usize = 0;
    while i < n
        invariant
            0 <= i <= n,
            n == v.len(),
            out.deep_view() == v.deep_view().subrange(0, i as int),
        decreases n - i,
    {
        let ghost prev = out.deep_view();
        out.push(v[i].clone());
        proof {
            assert(out.deep_view() =~= prev.push(v.deep_view()[i as int]));
            assert(out.deep_view() =~= v.deep_view().subrange(0, i as int + 1));
        }
        i = i + 1;
    }
    proof {
        assert(v.deep_view().subrange(0, n as int) =~= v.deep_view());
    }
    out
}

/// Record a list of tags on the player, in order.
#[verifier::loop_isolation(false)]
fn apply_add_tags(data: &mut PlayerData, tags: &Vec<String>)
    ensures
        final(data)@ == spec_with_tags(old(data)@, tags.deep_view()),
{
    let n = tags.len();
    let mut i: usize = 0;
    while i < n
        invariant
            0 <= i <= n,
            n == tags.len(),
            data@.acquired_tags == old(data)@.acquired_tags + tags.deep_view().subrange(
                0,
                i as int,
            ),
            data@.read_scripts == old(data)@.read_scripts,
            data.recovery == old(data).recovery,
            data.fitness == old(data).fitness,
            data.charisma == old(data).charisma,
            data.pos == old(data).pos,
        decreases n - i,
    {
        let ghost prev = data@.acquired_tags;
        data.add_tag(tags[i].clone());
        proof {
            assert(data@.acquired_tags =~= old(data)@.acquired_tags + tags.deep_view().subrange(
                0,
                i as int + 1,
            ));
        }
        i = i + 1;
    }
    proof {
        assert(tags.deep_view().subrange(0, n as int) =~= tags.deep_view());
        assert(old(data)@.acquired_tags + tags.deep_view().subrange(0, 0)
            =~= old(data)@.acquired_tags);
    }
}

/// Follow the option path down from a root segment.
#[verifier::loop_isolation(false)]
fn cursor_of<'a>(d: &'a ScriptReaderData) -> (r: &'a Segment)
    requires
        (d.index as int) < d.script@.segments.len(),
        spec_path_ok(d.script@.segments[d.index as int], d.option_index@),
    ensures
        r@ == spec_cursor(d.script@.segments[d.index as int], d.option_index@),
{
    proof {
        lemma_segments_view_len(d.script.segments@);
        lemma_segments_view_index(d.script.segments@, d.index as int);
    }
    let ghost root = d.script@.segments[d.index as int];
    let ghost path = d.option_index@;
    let mut cur: &Segment = &d.script.segments[d.index];
    let n = d.option_index.len();
    proof {
        assert(path.subrange(0, n as int) =~= path);
    }
    let mut k: usize = 0;
    while k < n
        invariant
            0 <= k <= n,
            spec_cursor(root, path) == spec_cursor(cur@, path.subrange(k as int, n as int)),
            spec_path_ok(cur@, path.subrange(k as int, n as int)),
        decreases n - k,
    {
        let j = d.option_index[k];
        proof {
            assert(path.subrange(k as int, n as int)[0] == path[k as int]);
            assert(path.subrange(k as int, n as int).drop_first() =~= path.subrange(
                k as int + 1,
                n as int,
            ));
            lemma_segments_view_len(cur.options@);
            lemma_segments_view_index(cur.options@, j as int);
        }
        cur = &cur.options[j];
        k = k + 1;
    }
    proof {
        assert(path.subrange(n as int, n as int) =~= Seq::<usize>::empty());
    }
    cur
}

impl ScriptReader {
    /// A reader with no active conversation.
    pub fn new() -> (r: ScriptReader)
        ensures
            r@ is None,
    {
        ScriptReader { script_data: None }
    }

    /// Whether a conversation is active.
    pub fn is_active(&self) -> (r: bool)
        ensures
            r == (self@ is Some),
    {
        match &self.script_data {
            None => false,
            Some(_) => true,
        }
    }

    /// The active segment, if any.
    pub fn current_segment(&self) -> (r: Option<Segment>)
        requires
            spec_reader_wf(self@),
        ensures
            self@ is None ==> r is None,
            (match self@ {
                Some(d) => r matches Some(seg) && seg@ == spec_reader_cursor(d),
                None => true,
            }),
    {
        match &self.script_data {
            None => None,
            Some(d) => Some(cursor_of(d).duplicate()),
        }
    }

    /// The active segment's option texts, plus the go-back entry when it
    /// applies.
    #[verifier::loop_isolation(false)]
    pub fn current_options(&self) -> (r: Vec<String>)
        requires
            spec_reader_wf(self@),
        ensures
            r.deep_view() == spec_current_options(self@),
    {
        match &self.script_data {
            None => {
                let r: Vec<String> = Vec::new();
                proof {
                    assert(r.deep_view() =~= Seq::<Seq<char>>::empty());
                }
                r
            },
            Some(d) => {
                let seg = cursor_of(d);
                let ghost segv = seg@;
                let ghost base = Seq::new(segv.options.len(), |k: int| segv.options[k].text);
                let n = seg.options.len();
                proof {
                    lemma_segments_view_len(seg.options@);
                }
                let mut out: Vec<String> = Vec::new();
                proof {
                    assert(out.deep_view() =~= base.subrange(0, 0));
                }
                let mut k: usize = 0;
                while k < n
                    invariant
                        0 <= k <= n,
                        n == seg.options.len(),
                        n == segv.options.len(),
                        segv == seg@,
                        base == Seq::new(segv.options.len(), |k2: int| segv.options[k2].text),
                        out.deep_view() == base.subrange(0, k as int),
                    decreases n - k,
                {
                    let ghost prev = out.deep_view();
                    proof {
                        lemma_segments_view_index(seg.options@, k as int);
                    }
                    out.push(seg.options[k].text.clone());
                    proof {
                        assert(out.deep_view() =~= prev.push(segv.options[k as int].text));
                        assert(out.deep_view() =~= base.subrange(0, k as int + 1));
                    }
                    k = k + 1;
                }
                proof {
                    assert(base.subrange(0, n as int) =~= base);
                }
                let no_change = seg.add_tags.len() == 0 && seg.remove_tags.len() == 0;
                if d.option_index.len() != 0 && no_change {
                    let ghost prev = out.deep_view();
                    out.push(String::from_str("[Go Back]"));
                    proof {
                        assert(out.deep_view() =~= prev.push("[Go Back]"@));
                    }
                }
                out
            },
        }
    }

    /// Whether the active segment's requirement holds; an inactive reader
    /// counts as valid.
    pub fn valid_current_segment(&self, data: &PlayerData) -> (r: bool)
        requires
            spec_reader_wf(self@),
        ensures
            r == (match self@ {
                None => true,
                Some(d) => spec_segment_valid(spec_reader_cursor(d), data@),
            }),
    {
        match &self.script_data {
            None => true,
            Some(d) => {
                let seg = cursor_of(d);
                match &seg.requirements {
                    None => true,
                    Some(rq) => rq.evaluate(data),
                }
            },
        }
    }

    /// Begin reading a script under its name: a script already in the
    /// player's read record leaves reader and player exactly as they
    /// were; otherwise the name is recorded and the cursor starts at the
    /// first root segment.
    pub fn set_script(&mut self, name: &str, script: &Script, player_data: &mut PlayerData)
        requires
            spec_reader_wf(old(self)@),
            script@.segments.len() > 0,
        ensures
            spec_reader_wf(final(self)@),
            spec_has_text(old(player_data)@.read_scripts, name@) ==> final(self)@ == old(self)@
                && final(player_data)@ == old(player_data)@,
            !spec_has_text(old(player_data)@.read_scripts, name@) ==> final(self)@ == Some(
                ReaderDataView { script: script@, index: 0, path: Seq::empty() },
            ) && final(player_data)@ == (PlayerView {
                read_scripts: old(player_data)@.read_scripts.push(name@),
                ..old(player_data)@
            }),
    {
        if crate::player::text_list_contains(&player_data.read_scripts, name) {
            return;
        }
        let ghost prev_read = player_data.read_scripts.deep_view();
        player_data.read_scripts.push(name.to_owned());
        proof {
            assert(player_data.read_scripts.deep_view() =~= prev_read.push(name@));
        }
        self.script_data = Some(
            ScriptReaderData { script: script.duplicate(), index: 0, option_index: Vec::new() },
        );
        proof {
            assert(self@ matches Some(d2) && d2.path =~= Seq::<usize>::empty() && d2.script
                == script@ && d2.index == 0);
        }
    }

    /// End or continue the conversation past the current root segment:
    /// clear the path, step the root index forward, and skip roots whose
    /// requirements fail.
    #[verifier::loop_isolation(false)]
    fn advance_root(&mut self, data: &PlayerData)
        requires
            spec_reader_wf(old(self)@),
            old(self)@ is Some,
        ensures
            spec_reader_wf(final(self)@),
            (match old(self)@ {
                Some(d) => final(self)@ == spec_advance_root(d.script, d.index + 1, data@),
                None => false,
            }),
    {
        let (script2, start) = match &self.script_data {
            None => {
                proof {
                    assert(false);
                }
                return ;
            },
            Some(d) => (d.script.duplicate(), d.index),
        };
        let ghost sv = script2@;
        let n = script2.segments.len();
        proof {
            lemma_segments_view_len(script2.segments@);
        }
        let mut idx: usize = start + 1;
        while idx < n
            invariant
                start + 1 <= idx <= n,
                n == script2.segments.len(),
                sv == script2@,
                sv.segments.len() == n,
                spec_advance_root(sv, start + 1, data@) == spec_advance_root(
                    sv,
                    idx as int,
                    data@,
                ),
            decreases n - idx,
        {
            proof {
                lemma_segments_view_index(script2.segments@, idx as int);
            }
            let valid = match &script2.segments[idx].requirements {
                None => true,
                Some(rq) => rq.evaluate(data),
            };
            if valid {
                break ;
            }
            idx = idx + 1;
        }
        if idx >= n {
            self.script_data = None;
        } else {
            proof {
                lemma_segments_view_index(script2.segments@, idx as int);
            }
            self.script_data = Some(
                ScriptReaderData { script: script2, index: idx, option_index: Vec::new() },
            );
            proof {
                assert(self@ matches Some(d2) && d2.path =~= Seq::<usize>::empty());
            }
        }
    }

    /// One advance step; the result is present exactly when a
    /// conversation was active.
    #[verifier::rlimit(100)]
    pub fn next(&mut self, selection: usize, data: &mut PlayerData) -> (r: Option<()>)
        requires
            spec_reader_wf(old(self)@),
            (match old(self)@ {
                Some(d) => spec_current_options(old(self)@).len() != 0 ==> selection
                    <= spec_reader_cursor(d).options.len(),
                None => true,
            }),
        ensures
            spec_reader_wf(final(self)@),
            (r is Some) == (old(self)@ is Some),
            (final(self)@, final(data)@) == spec_next(old(self)@, selection, old(data)@),
    {
        let (script2, index, path, seg_add, seg_opt_len) = match &self.script_data {
            None => {
                return None;
            },
            Some(d) => {
                let seg = cursor_of(d);
                proof {
                    lemma_segments_view_len(seg.options@);
                }
                (
                    d.script.duplicate(),
                    d.index,
                    copy_usizes(&d.option_index),
                    clone_texts(&seg.add_tags),
                    seg.options.len(),
                )
            },
        };
        apply_add_tags(data, &seg_add);
        let opts = self.current_options();
        if opts.len() != 0 {
            proof {
                assert(spec_current_options(old(self)@).len() != 0);
            }
            if seg_opt_len == selection {
                let mut path2 = path;
                if path2.len() > 0 {
                    let ghost pv = path2@;
                    path2.pop();
                    proof {
                        assert(path2@ =~= pv.drop_last());
                        (match old(self)@ {
                            Some(d) => {
                                lemma_path_ok_drop_last(d.script.segments[d.index], d.path);
                            },
                            None => {},
                        })
                    }
                }
                self.script_data = Some(
                    ScriptReaderData { script: script2, index, option_index: path2 },
                );
                Some(())
            } else {
                proof {
                    (match old(self)@ {
                        Some(d) => {
                            lemma_cursor_push(
                                d.script.segments[d.index],
                                d.path,
                                selection,
                            );
                        },
                        None => {},
                    })
                }
                let mut path2 = path;
                path2.push(selection);
                self.script_data = Some(
                    ScriptReaderData { script: script2, index, option_index: path2 },
                );
                let opts2 = self.current_options();
                if opts2.len() == 0 {
                    let seg2 = match self.current_segment() {
                        Some(s2) => s2,
                        None => {
                            proof {
                                assert(false);
                            }
                            return Some(());
                        },
                    };
                    apply_add_tags(data, &seg2.add_tags);
                    self.advance_root(data);
                }
                Some(())
            }
        } else {
            self.advance_root(data);
            Some(())
        }
    }
}

impl Script {
    /// Parse a whole script.
    pub fn from_str(s: &str) -> (res: Result<Script, ParseErr>)
        ensures
            (match res {
                Ok(v) => spec_split_segments(s@) == Ok::<_, ParseErrView>(v@.segments),
                Err(e) => spec_split_segments(s@) == Err::<Seq<SegmentView>, _>(e@),
            }),
    {
        match split_segments(s) {
            Ok(segments) => Ok(Script { segments }),
            Err(e) => Err(e),
        }
    }
}

} // verus!
