//! The filter chain: an immutable value that every user action replaces by a
//! new one.
use vstd::prelude::*;
use vstd::string::*;
use crate::pattern::{Pattern, regex_compiles};
use crate::layout::{
    content_width, content_width_of, input_window_height_of, pager_content_height,
    pager_content_height_of, pager_window_height, pager_window_height_of, sat_sub,
};
use crate::text::{pop_char, push_char};

verus! {

/// The marker that makes the regex engine ignore case.
pub open spec fn case_insensitive_prefix() -> Seq<char> {
    seq!['(', '?', 'i', ')']
}

/// One filter stage: pattern text, context width, case and inversion flags.
#[derive(Clone, Debug, PartialEq, Eq, PartialOrd, Ord, Hash)]
pub struct SearchLine {
    pub line: String,
    pub context: u32,
    pub case_sensitive: bool,
    pub inverse: bool,
}

/// The mathematical value of a [`SearchLine`].
pub struct Stage {
    pub text: Seq<char>,
    pub context: u32,
    pub case_sensitive: bool,
    pub inverse: bool,
}

impl View for SearchLine {
    type V = Stage;

    open spec fn view(&self) -> Stage {
        Stage {
            text: self.line@,
            context: self.context,
            case_sensitive: self.case_sensitive,
            inverse: self.inverse,
        }
    }
}

/// The text handed to the regex engine for a stage.
pub open spec fn prefixed(s: Stage) -> Seq<char> {
    if s.case_sensitive {
        s.text
    } else {
        case_insensitive_prefix() + s.text
    }
}

/// Whether a stage compiles.
pub open spec fn stage_compiles(s: Stage) -> bool {
    regex_compiles(prefixed(s))
}

impl SearchLine {
    pub fn new(line: String, context: u32, case_sensitive: bool, inverse: bool) -> (r: SearchLine)
        ensures
            r.line == line,
            r.context == context,
            r.case_sensitive == case_sensitive,
            r.inverse == inverse,
    {
        SearchLine { line, context, case_sensitive, inverse }
    }

    /// A copy with the same view.
    pub fn duplicate(&self) -> (r: SearchLine)
        ensures
            r@ == self@,
    {
        SearchLine {
            line: self.line.clone(),
            context: self.context,
            case_sensitive: self.case_sensitive,
            inverse: self.inverse,
        }
    }

    /// The stage text, with the case-insensitivity marker in front unless the
    /// stage is case sensitive.
    pub fn line_with_sensitivity_prefix(&self) -> (r: String)
        ensures
            r@ == prefixed(self@),
    {
        if self.case_sensitive {
            self.line.clone()
        } else {
            let mut r = String::from_str("(?i)");
            proof {
                reveal_strlit("(?i)");
            }
            r.append(self.line.as_str());
            r
        }
    }

    /// Compiles the prefixed stage text.
    pub fn construct_regex(&self) -> (r: Result<Pattern, regex::Error>)
        ensures
            r is Ok <==> stage_compiles(self@),
            r matches Ok(p) ==> p@ == prefixed(self@),
    {
        let text = self.line_with_sensitivity_prefix();
        Pattern::compile(text.as_str())
    }
}

} // verus!

verus! {

/// The mathematical value of a [`State`].
pub struct ChainView {
    pub source: Seq<String>,
    pub stages: Seq<Stage>,
    pub last_valid: Seq<char>,
    pub pager_x: u32,
    pub pager_y: u32,
    pub max_y: u32,
    pub max_x: u32,
}

/// The chain invariant: at least one stage, every stage but the last
/// compiles, the last valid pattern compiles, and it is the last stage's own
/// pattern whenever that one compiles.
pub open spec fn chain_wf(v: ChainView) -> bool {
    &&& v.stages.len() > 0
    &&& forall|i: int| 0 <= i < v.stages.len() - 1 ==> stage_compiles(#[trigger] v.stages[i])
    &&& regex_compiles(v.last_valid)
    &&& stage_compiles(v.stages.last()) ==> v.last_valid == prefixed(v.stages.last())
}

/// The views of a sequence of stages.
pub open spec fn stages_of(s: Seq<SearchLine>) -> Seq<Stage> {
    s.map_values(|l: SearchLine| l@)
}

/// The last valid pattern after the last stage became `stage`: its own
/// pattern if it compiles, else the one before.
pub open spec fn next_valid(stage: Stage, before: Seq<char>) -> Seq<char> {
    if stage_compiles(stage) { prefixed(stage) } else { before }
}

/// Where a scroll offset lands: `pos + amount`, clamped to
/// `[0, max(0, total - visible)]`.
pub open spec fn clamp_scroll(pos: int, amount: int, total: int, visible: int) -> int {
    let hi = sat_sub(total, visible);
    let t = pos + amount;
    if t < 0 { 0 } else if t > hi { hi } else { t }
}

/// A scroll offset never goes below zero nor beyond
/// `max(0, total - visible)`, whatever the amount asked for.
pub proof fn lemma_scroll_in_range(pos: int, amount: int, total: int, visible: int)
    ensures
        0 <= clamp_scroll(pos, amount, total, visible) <= sat_sub(total, visible),
{
}

/// A context width changed by `diff`, saturating at zero and at `u32::MAX`.
pub open spec fn adjusted_context(context: u32, diff: int) -> u32 {
    let t = context + diff;
    if t < 0 { 0 } else if t > u32::MAX { u32::MAX } else { t as u32 }
}

/// The stages with the last one replaced.
pub open spec fn with_last(stages: Seq<Stage>, last: Stage) -> Seq<Stage> {
    stages.drop_last().push(last)
}

/// The chain with its last stage replaced by `last`, and the last valid
/// pattern brought up to date.
pub open spec fn set_last(v: ChainView, last: Stage) -> ChainView {
    ChainView {
        stages: with_last(v.stages, last),
        last_valid: next_valid(last, v.last_valid),
        ..v
    }
}

/// A fresh empty stage that takes over the flags of `s`.
pub open spec fn empty_like(s: Stage) -> Stage {
    Stage { text: Seq::empty(), context: s.context, case_sensitive: s.case_sensitive, inverse: s.inverse }
}

/// The chain after a stage commit: a new empty stage is pushed where the last
/// stage is non-empty and compiles; otherwise nothing changes.
pub open spec fn accepted(v: ChainView) -> ChainView {
    if v.stages.last().text.len() > 0 && stage_compiles(v.stages.last()) {
        ChainView {
            stages: v.stages.push(empty_like(v.stages.last())),
            last_valid: next_valid(empty_like(v.stages.last()), v.last_valid),
            ..v
        }
    } else {
        v
    }
}

/// The chain after a stage rollback: the last stage is removed where more
/// than one remains, and the new last stage's pattern becomes the last valid
/// one; otherwise nothing changes.
pub open spec fn reverted(v: ChainView) -> ChainView {
    if v.stages.len() > 1 {
        ChainView {
            stages: v.stages.drop_last(),
            last_valid: prefixed(v.stages.drop_last().last()),
            ..v
        }
    } else {
        v
    }
}

/// Committing a stage and rolling it back at once gives the chain back.
pub proof fn lemma_accept_then_revert(v: ChainView)
    requires
        chain_wf(v),
        v.stages.last().text.len() > 0,
        stage_compiles(v.stages.last()),
    ensures
        reverted(accepted(v)) == v,
{
    assert(accepted(v).stages.drop_last() =~= v.stages);
}

/// Every transition keeps the chain invariant.
pub proof fn lemma_transitions_keep_wf(v: ChainView, last: Stage)
    requires
        chain_wf(v),
    ensures
        chain_wf(set_last(v, last)),
        chain_wf(accepted(v)),
        chain_wf(reverted(v)),
{
    let w = set_last(v, last);
    assert forall|i: int| 0 <= i < w.stages.len() - 1 implies stage_compiles(#[trigger] w.stages[i]) by {
        assert(w.stages[i] == v.stages[i]);
    }
    let a = accepted(v);
    if v.stages.last().text.len() > 0 && stage_compiles(v.stages.last()) {
        assert forall|i: int| 0 <= i < a.stages.len() - 1 implies stage_compiles(#[trigger] a.stages[i]) by {
            if i < v.stages.len() - 1 {
                assert(a.stages[i] == v.stages[i]);
            }
        }
    }
    let r = reverted(v);
    if v.stages.len() > 1 {
        assert forall|i: int| 0 <= i < r.stages.len() - 1 implies stage_compiles(#[trigger] r.stages[i]) by {
            assert(r.stages[i] == v.stages[i]);
        }
        assert(stage_compiles(v.stages[v.stages.len() - 2]));
    }
}

/// `pos + amount`, clamped to `[0, max(0, total - visible)]`.
fn clamp_offset(pos: u32, amount: i32, total: u32, visible: u32) -> (r: u32)
    ensures
        r == clamp_scroll(pos as int, amount as int, total as int, visible as int),
{
    let hi: u32 = total.saturating_sub(visible);
    let t: i64 = pos as i64 + amount as i64;
    if t < 0 {
        0
    } else if t > hi as i64 {
        hi
    } else {
        t as u32
    }
}

#[derive(Debug)]
pub struct State<'a> {
    source_lines: &'a Vec<String>,
    search_lines: Vec<SearchLine>,
    last_valid_regex: Pattern,
    pager_x: u32,
    pager_y: u32,
    max_y: u32,
    max_x: u32,
}

/// Copies stages one by one.
fn copy_search_lines(v: &Vec<SearchLine>) -> (r: Vec<SearchLine>)
    ensures
        stages_of(r@) == stages_of(v@),
{
    let mut r: Vec<SearchLine> = Vec::new();
    let mut i: usize = 0;
    while i < v.len()
        invariant
            0 <= i <= v@.len(),
            r@.len() == i,
            forall|j: int| 0 <= j < i ==> (#[trigger] r@[j])@ == v@[j]@,
        decreases v@.len() - i,
    {
        r.push(v[i].duplicate());
        i = i + 1;
    }
    assert(stages_of(r@) =~= stages_of(v@));
    r
}

impl<'a> View for State<'a> {
    type V = ChainView;

    closed spec fn view(&self) -> ChainView {
        ChainView {
            source: self.source_lines@,
            stages: stages_of(self.search_lines@),
            last_valid: self.last_valid_regex@,
            pager_x: self.pager_x,
            pager_y: self.pager_y,
            max_y: self.max_y,
            max_x: self.max_x,
        }
    }
}

impl<'a> State<'a> {
    pub open spec fn wf(&self) -> bool {
        chain_wf(self@)
    }

    /// The last stage of the chain.
    pub open spec fn last_stage(&self) -> Stage {
        self@.stages.last()
    }

    /// Builds a chain. Its last valid pattern is the last stage's pattern, or
    /// the bare case-insensitivity marker where that one does not compile.
    /// The caller vouches that the marker compiles; [`Self::try_new`] tests it
    /// instead.
    pub fn new(
        source_lines: &'a Vec<String>,
        search_lines: Vec<SearchLine>,
        pager_x: u32,
        pager_y: u32,
        max_y: u32,
        max_x: u32,
    ) -> (r: State<'a>)
        requires
            search_lines@.len() > 0,
            forall|i: int| 0 <= i < search_lines@.len() - 1 ==> stage_compiles(#[trigger] search_lines@[i]@),
            regex_compiles(case_insensitive_prefix()),
        ensures
            r.wf(),
            r@ == (ChainView {
                source: source_lines@,
                stages: stages_of(search_lines@),
                last_valid: next_valid(search_lines@.last()@, case_insensitive_prefix()),
                pager_x,
                pager_y,
                max_y,
                max_x,
            }),
    {
        let n = search_lines.len();
        let regex = match search_lines[n - 1].construct_regex() {
            Ok(p) => p,
            Err(_) => {
                proof {
                    reveal_strlit("(?i)");
                    assert("(?i)"@ =~= case_insensitive_prefix());
                }
                Pattern::compile("(?i)").unwrap()
            },
        };
        let r = State { source_lines, search_lines, last_valid_regex: regex, pager_x, pager_y, max_y, max_x };
        proof {
            assert forall|i: int| 0 <= i < r@.stages.len() - 1 implies stage_compiles(#[trigger] r@.stages[i]) by {
                assert(r@.stages[i] == r.search_lines@[i]@);
            }
        }
        r
    }

    /// Builds a chain where that is allowed: `None` where the stage list is
    /// empty or a stage other than the last does not compile.
    pub fn try_new(
        source_lines: &'a Vec<String>,
        search_lines: Vec<SearchLine>,
        pager_x: u32,
        pager_y: u32,
        max_y: u32,
        max_x: u32,
    ) -> (r: Option<State<'a>>)
        ensures
            r is Some <==> search_lines@.len() > 0
                && (forall|i: int| 0 <= i < search_lines@.len() - 1 ==> stage_compiles(#[trigger] search_lines@[i]@))
                && regex_compiles(case_insensitive_prefix()),
            r matches Some(s) ==> s.wf() && s@ == (ChainView {
                source: source_lines@,
                stages: stages_of(search_lines@),
                last_valid: next_valid(search_lines@.last()@, case_insensitive_prefix()),
                pager_x,
                pager_y,
                max_y,
                max_x,
            }),
    {
        let n = search_lines.len();
        if n == 0 {
            return None;
        }
        let mut i: usize = 0;
        while i < n - 1
            invariant
                n == search_lines@.len(),
                n > 0,
                0 <= i <= n - 1,
                forall|j: int| 0 <= j < i ==> stage_compiles(#[trigger] search_lines@[j]@),
            decreases n - 1 - i,
        {
            if search_lines[i].construct_regex().is_err() {
                return None;
            }
            i = i + 1;
        }
        proof {
            reveal_strlit("(?i)");
            assert("(?i)"@ =~= case_insensitive_prefix());
        }
        if Pattern::compile("(?i)").is_err() {
            return None;
        }
        Some(State::new(source_lines, search_lines, pager_x, pager_y, max_y, max_x))
    }

    /// A copy of this chain, sharing the source lines.
    pub fn duplicate(&self) -> (r: State<'a>)
        ensures
            r@ == self@,
    {
        State {
            source_lines: self.source_lines,
            search_lines: copy_search_lines(&self.search_lines),
            last_valid_regex: self.last_valid_regex.duplicate(),
            pager_x: self.pager_x,
            pager_y: self.pager_y,
            max_y: self.max_y,
            max_x: self.max_x,
        }
    }

    /// The number of stages.
    pub fn stage_len(&self) -> (r: usize)
        ensures
            r == self@.stages.len(),
    {
        self.search_lines.len()
    }

    /// Whether every stage is empty.
    pub fn empty_search_lines(&self) -> (r: bool)
        ensures
            r == forall|i: int| 0 <= i < self@.stages.len() ==> (#[trigger] self@.stages[i]).text.len() == 0,
    {
        let mut i: usize = 0;
        while i < self.search_lines.len()
            invariant
                0 <= i <= self.search_lines@.len(),
                forall|j: int| 0 <= j < i ==> (#[trigger] self@.stages[j]).text.len() == 0,
            decreases self.search_lines@.len() - i,
        {
            if !self.search_lines[i].line.as_str().is_empty() {
                assert(self@.stages[i as int].text.len() != 0);
                return false;
            }
            i = i + 1;
        }
        true
    }

    pub fn max_y(&self) -> (r: u32)
        ensures
            r == self@.max_y,
    {
        self.max_y
    }

    pub fn max_x(&self) -> (r: u32)
        ensures
            r == self@.max_x,
    {
        self.max_x
    }

    pub fn pager_y(&self) -> (r: u32)
        ensures
            r == self@.pager_y,
    {
        self.pager_y
    }

    pub fn pager_x(&self) -> (r: u32)
        ensures
            r == self@.pager_x,
    {
        self.pager_x
    }

    pub fn current_context(&self) -> (r: u32)
        requires
            self.wf(),
        ensures
            r == self.last_stage().context,
    {
        self.search_lines[self.search_lines.len() - 1].context
    }

    pub fn inverted(&self) -> (r: bool)
        requires
            self.wf(),
        ensures
            r == self.last_stage().inverse,
    {
        self.search_lines[self.search_lines.len() - 1].inverse
    }

    /// A copy of the stages.
    pub fn search_lines(&self) -> (r: Vec<SearchLine>)
        ensures
            stages_of(r@) == self@.stages,
    {
        copy_search_lines(&self.search_lines)
    }

    /// The text of each stage.
    pub fn search_line_strings(&self) -> (r: Vec<String>)
        ensures
            r@.len() == self@.stages.len(),
            forall|i: int| 0 <= i < r@.len() ==> (#[trigger] r@[i])@ == self@.stages[i].text,
    {
        let mut r: Vec<String> = Vec::new();
        let mut i: usize = 0;
        while i < self.search_lines.len()
            invariant
                0 <= i <= self.search_lines@.len(),
                r@.len() == i,
                forall|j: int| 0 <= j < i ==> (#[trigger] r@[j])@ == self.search_lines@[j].line@,
            decreases self.search_lines@.len() - i,
        {
            r.push(self.search_lines[i].line.clone());
            i = i + 1;
        }
        r
    }

    /// The text of each stage as handed to the regex engine.
    pub fn search_line_strings_with_case_sensitivity(&self) -> (r: Vec<String>)
        ensures
            r@.len() == self@.stages.len(),
            forall|i: int| 0 <= i < r@.len() ==> (#[trigger] r@[i])@ == prefixed(self@.stages[i]),
    {
        let mut r: Vec<String> = Vec::new();
        let mut i: usize = 0;
        while i < self.search_lines.len()
            invariant
                0 <= i <= self.search_lines@.len(),
                r@.len() == i,
                forall|j: int| 0 <= j < i ==> (#[trigger] r@[j])@ == prefixed(self.search_lines@[j]@),
            decreases self.search_lines@.len() - i,
        {
            r.push(self.search_lines[i].line_with_sensitivity_prefix());
            i = i + 1;
        }
        r
    }

    pub fn source_lines(&self) -> (r: &'a Vec<String>)
        ensures
            r@ == self@.source,
    {
        self.source_lines
    }

    /// Whether the last stage compiles.
    pub fn regex_valid(&self) -> (r: bool)
        requires
            self.wf(),
        ensures
            r == stage_compiles(self.last_stage()),
    {
        self.regex().is_ok()
    }

    /// The last stage compiled.
    pub fn regex(&self) -> (r: Result<Pattern, regex::Error>)
        requires
            self.wf(),
        ensures
            r is Ok <==> stage_compiles(self.last_stage()),
            r matches Ok(p) ==> p@ == prefixed(self.last_stage()),
    {
        self.search_lines[self.search_lines.len() - 1].construct_regex()
    }

    pub fn last_valid_regex(&self) -> (r: Pattern)
        ensures
            r@ == self@.last_valid,
    {
        self.last_valid_regex.duplicate()
    }

    pub fn last_search_line_empty(&self) -> (r: bool)
        requires
            self.wf(),
        ensures
            r == (self.last_stage().text.len() == 0),
    {
        self.search_lines[self.search_lines.len() - 1].line.as_str().is_empty()
    }

    /// Replaces the last stage and brings the last valid pattern up to date.
    fn replace_last(self, last: SearchLine) -> (r: State<'a>)
        requires
            self.wf(),
        ensures
            r.wf(),
            r@ == set_last(self@, last@),
    {
        proof {
            lemma_transitions_keep_wf(self@, last@);
        }
        let regex = match last.construct_regex() {
            Ok(p) => p,
            Err(_) => self.last_valid_regex,
        };
        let mut search_lines = self.search_lines;
        let ghost before = search_lines@;
        search_lines.pop();
        search_lines.push(last);
        let r = State {
            source_lines: self.source_lines,
            search_lines,
            last_valid_regex: regex,
            pager_x: self.pager_x,
            pager_y: self.pager_y,
            max_y: self.max_y,
            max_x: self.max_x,
        };
        assert(stages_of(r.search_lines@) =~= with_last(stages_of(before), last@));
        r
    }

    /// A copy of the last stage.
    fn last_line(&self) -> (r: SearchLine)
        requires
            self.wf(),
        ensures
            r@ == self.last_stage(),
    {
        self.search_lines[self.search_lines.len() - 1].duplicate()
    }

    /// Removes the last character of the last stage, if it has one.
    pub fn pop_search_char(self) -> (r: State<'a>)
        requires
            self.wf(),
        ensures
            r.wf(),
            r@ == set_last(
                self@,
                Stage {
                    text: if self.last_stage().text.len() > 0 {
                        self.last_stage().text.drop_last()
                    } else {
                        self.last_stage().text
                    },
                    ..self.last_stage()
                },
            ),
    {
        let mut last = self.last_line();
        let _ = pop_char(&mut last.line);
        self.replace_last(last)
    }

    /// Appends a character to the last stage.
    pub fn push_search_char(self, new_char: char) -> (r: State<'a>)
        requires
            self.wf(),
        ensures
            r.wf(),
            r@ == set_last(self@, Stage { text: self.last_stage().text.push(new_char), ..self.last_stage() }),
    {
        let mut last = self.last_line();
        push_char(&mut last.line, new_char);
        self.replace_last(last)
    }

    /// Commits the last stage: where it is non-empty and compiles, a new empty
    /// stage with the same flags is pushed; otherwise the chain is unchanged.
    pub fn accept_partial_match(self) -> (r: State<'a>)
        requires
            self.wf(),
        ensures
            r.wf(),
            r@ == accepted(self@),
    {
        proof {
            lemma_transitions_keep_wf(self@, self.last_stage());
        }
        if !self.last_search_line_empty() && self.regex_valid() {
            let prev = self.last_line();
            let fresh = SearchLine {
                line: String::new(),
                context: prev.context,
                case_sensitive: prev.case_sensitive,
                inverse: prev.inverse,
            };
            let regex = match fresh.construct_regex() {
                Ok(p) => p,
                Err(_) => self.last_valid_regex,
            };
            let mut search_lines = self.search_lines;
            let ghost before = search_lines@;
            search_lines.push(fresh);
            let r = State {
                source_lines: self.source_lines,
                search_lines,
                last_valid_regex: regex,
                pager_x: self.pager_x,
                pager_y: self.pager_y,
                max_y: self.max_y,
                max_x: self.max_x,
            };
            assert(fresh@ == empty_like(self@.stages.last()));
            assert(stages_of(r.search_lines@) =~= stages_of(before).push(fresh@));
            return r;
        }
        self
    }

    /// Rolls back the last stage where more than one remains; otherwise the
    /// chain is unchanged.
    pub fn revert_partial_match(self) -> (r: State<'a>)
        requires
            self.wf(),
        ensures
            r.wf(),
            r@ == reverted(self@),
    {
        proof {
            lemma_transitions_keep_wf(self@, self.last_stage());
        }
        if self.search_lines.len() > 1 {
            let mut search_lines = self.search_lines;
            let ghost before = search_lines@;
            search_lines.pop();
            assert(stages_of(search_lines@) =~= stages_of(before).drop_last());
            let n = search_lines.len();
            assert(stage_compiles(stages_of(before)[n - 1]));
            let regex = search_lines[n - 1].construct_regex().unwrap();
            return State {
                source_lines: self.source_lines,
                search_lines,
                last_valid_regex: regex,
                pager_x: self.pager_x,
                pager_y: self.pager_y,
                max_y: self.max_y,
                max_x: self.max_x,
            };
        }
        self
    }

    /// Replaces the screen geometry.
    pub fn set_max_yx(self, max_y: u32, max_x: u32) -> (r: State<'a>)
        requires
            self.wf(),
        ensures
            r.wf(),
            r@ == (ChainView { max_y, max_x, ..self@ }),
    {
        State { max_y, max_x, ..self }
    }

    /// Replaces the source lines, keeping everything else.
    pub fn set_source_lines<'b>(self, source_lines: &'b Vec<String>) -> (r: State<'b>)
        requires
            self.wf(),
        ensures
            r.wf(),
            r@ == (ChainView { source: source_lines@, ..self@ }),
    {
        State {
            source_lines,
            search_lines: self.search_lines,
            last_valid_regex: self.last_valid_regex,
            pager_x: self.pager_x,
            pager_y: self.pager_y,
            max_y: self.max_y,
            max_x: self.max_x,
        }
    }

    /// Changes the last stage's context by `context_diff`, saturating at zero.
    pub fn modify_context(self, context_diff: i32) -> (r: State<'a>)
        requires
            self.wf(),
        ensures
            r.wf(),
            r@ == (ChainView {
                stages: with_last(
                    self@.stages,
                    Stage { context: adjusted_context(self.last_stage().context, context_diff as int), ..self.last_stage() },
                ),
                ..self@
            }),
    {
        let mut last = self.last_line();
        let t: i64 = last.context as i64 + context_diff as i64;
        last.context = if t < 0 {
            0
        } else if t > u32::MAX as i64 {
            u32::MAX
        } else {
            t as u32
        };
        let r = self.replace_last(last);
        r
    }

    /// The number of stages, as the layout functions take it.
    fn stage_count(&self) -> (r: u32)
        ensures
            forall|y: int| 0 <= y <= u32::MAX ==> #[trigger] input_window_height_of(y, r as int)
                == input_window_height_of(y, self@.stages.len() as int),
    {
        if self.search_lines.len() > u32::MAX as usize {
            u32::MAX
        } else {
            self.search_lines.len() as u32
        }
    }

    /// Moves the pager horizontally by `amount`, clamped to
    /// `[0, max(0, longest_line_length - content width)]`.
    pub fn page_x(self, amount: i32, longest_line_length: u32) -> (r: State<'a>)
        requires
            self.wf(),
        ensures
            r.wf(),
            r@ == (ChainView {
                pager_x: clamp_scroll(
                    self@.pager_x as int,
                    amount as int,
                    longest_line_length as int,
                    content_width_of(self@.max_x as int),
                ) as u32,
                ..self@
            }),
    {
        let pager_x = clamp_offset(self.pager_x, amount, longest_line_length, content_width(self.max_x));
        State { pager_x, ..self }
    }

    /// Moves the pager vertically by `amount`, clamped to
    /// `[0, max(0, output_line_count - pager content height)]`.
    pub fn page_y(self, amount: i32, output_line_count: u32) -> (r: State<'a>)
        requires
            self.wf(),
        ensures
            r.wf(),
            r@ == (ChainView {
                pager_y: clamp_scroll(
                    self@.pager_y as int,
                    amount as int,
                    output_line_count as int,
                    pager_content_height_of(pager_window_height_of(self@.max_y as int, self@.stages.len() as int)),
                ) as u32,
                ..self@
            }),
    {
        let n = self.stage_count();
        let visible = pager_content_height(pager_window_height(self.max_y, n));
        let pager_y = clamp_offset(self.pager_y, amount, output_line_count, visible);
        State { pager_y, ..self }
    }

    /// Flips the last stage's case sensitivity.
    pub fn toggle_case_sensitivity(self) -> (r: State<'a>)
        requires
            self.wf(),
        ensures
            r.wf(),
            r@ == set_last(self@, Stage { case_sensitive: !self.last_stage().case_sensitive, ..self.last_stage() }),
    {
        let mut last = self.last_line();
        last.case_sensitive = !last.case_sensitive;
        self.replace_last(last)
    }

    /// Flips the last stage's inversion.
    pub fn toggle_inverted(self) -> (r: State<'a>)
        requires
            self.wf(),
        ensures
            r.wf(),
            r@ == set_last(self@, Stage { inverse: !self.last_stage().inverse, ..self.last_stage() }),
    {
        let mut last = self.last_line();
        last.inverse = !last.inverse;
        self.replace_last(last)
    }
}

} // verus!
