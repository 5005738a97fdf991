//! The cache of stage generators: one generator per cache key, and for every
//! chain, generators for all of its prefixes, each reading the full output
//! of the one before.
use vstd::prelude::*;
use crate::types::LineView;
use crate::output_generator::{
    Len, OutputGenerator, ScanParams, chunk_end, index_after, input_fits, lemma_passed_texts_fit,
    output_after, scan_stop, strings_view, texts_of, joined, widest,
};
use crate::state::{ChainView, SearchLine, Stage, State, prefixed, reverted, stage_compiles, stages_of};
use crate::layout::{pager_content_height_of, pager_window_height_of, sat_add};
use crate::trimming::{REQUEST_BUFFER_SIZE, frame_ok, produce_render_state};
use crate::types::RenderState;
use crate::text::copy_strings;

verus! {

/// How a stage scans its input lines with a given pattern.
pub open spec fn stage_params(lines: Seq<Seq<char>>, s: Stage, pattern: Seq<char>) -> ScanParams {
    ScanParams {
        lines,
        pattern,
        search_line_empty: s.text.len() == 0,
        context: s.context as int,
        inverted: s.inverse,
    }
}

/// The lines that the last of `stages` reads: the source for the first
/// stage, else the texts that the stage before passes on once it has
/// scanned all of its own input.
pub open spec fn stage_lines(src: Seq<Seq<char>>, stages: Seq<Stage>) -> Seq<Seq<char>>
    decreases stages.len(),
{
    if stages.len() <= 1 {
        src
    } else {
        let pre = stages.drop_last();
        let p = stage_params(stage_lines(src, pre), pre.last(), prefixed(pre.last()));
        texts_of(output_after(p, p.lines.len()))
    }
}

/// What the last stage of a chain scans.
pub open spec fn chain_params(v: ChainView) -> ScanParams {
    stage_params(stage_lines(strings_view(v.source), v.stages), v.stages.last(), v.last_valid)
}

/// The full output of a chain.
pub open spec fn chain_output(v: ChainView) -> Seq<LineView> {
    output_after(chain_params(v), chain_params(v).lines.len())
}

/// Every stage reads input that can be counted in `u32`.
pub proof fn lemma_stage_lines_fit(src: Seq<Seq<char>>, stages: Seq<Stage>)
    requires
        input_fits(src),
    ensures
        input_fits(stage_lines(src, stages)),
    decreases stages.len(),
{
    if stages.len() > 1 {
        let pre = stages.drop_last();
        lemma_stage_lines_fit(src, pre);
        let p = stage_params(stage_lines(src, pre), pre.last(), prefixed(pre.last()));
        lemma_passed_texts_fit(p, p.lines.len());
    }
}

/// A chain's realized output counts in `u32`.
pub proof fn lemma_chain_output_len(v: ChainView, k: nat)
    requires
        input_fits(strings_view(v.source)),
    ensures
        output_after(chain_params(v), k).len() <= u32::MAX,
{
    lemma_stage_lines_fit(strings_view(v.source), v.stages);
    crate::output_generator::lemma_ordered_len(index_after(chain_params(v), k), chain_params(v).lines.len());
}

/// Identifies a generator: the number of stages, the last stage's context
/// and the compiled pattern text. The text being typed is not part of it.
#[derive(Debug)]
struct CacheKey {
    search_lines: usize,
    context: u32,
    active_regex: String,
}

/// A cached generator, with the last stage text it was built for and the
/// stages of the chain it serves.
#[derive(Debug)]
struct CacheEntry {
    key: CacheKey,
    search_line: String,
    stages: Vec<SearchLine>,
    output_generator: OutputGenerator,
}

/// Memoizes one generator per stage chain.
#[derive(Debug)]
pub struct Core {
    cache: Vec<CacheEntry>,
}

impl CacheEntry {
    /// The entry serves chains with these stages and this last valid pattern,
    /// and its generator scans what the last of them scans.
    spec fn wf_for(&self, src: Seq<Seq<char>>) -> bool {
        let st = stages_of(self.stages@);
        &&& st.len() > 0
        &&& self.key.search_lines == st.len()
        &&& self.key.context == st.last().context
        &&& self.search_line@ == st.last().text
        &&& self.output_generator.wf()
        &&& self.output_generator.params() == stage_params(stage_lines(src, st), st.last(), self.key.active_regex@)
    }

    /// The entry serves the chain `v`.
    spec fn serves(&self, v: ChainView) -> bool {
        &&& stages_of(self.stages@) == v.stages
        &&& self.key.active_regex@ == v.last_valid
    }
}

/// A key as plain values.
spec fn key_of(e: CacheEntry) -> (usize, u32, Seq<char>) {
    (e.key.search_lines, e.key.context, e.key.active_regex@)
}

/// Every entry is well formed for the source `src`, and no two entries share
/// a key.
spec fn entries_ok(c: Seq<CacheEntry>, src: Seq<Seq<char>>) -> bool {
    &&& forall|i: int| 0 <= i < c.len() ==> (#[trigger] c[i]).wf_for(src)
    &&& forall|i: int, j: int|
        0 <= i < c.len() && 0 <= j < c.len() && key_of(#[trigger] c[i]) == key_of(#[trigger] c[j]) ==> i == j
}

/// Replacing an entry by one with the same key that is well formed keeps the
/// entries well formed.
proof fn lemma_update_ok(c: Seq<CacheEntry>, src: Seq<Seq<char>>, i: int, e: CacheEntry)
    requires
        entries_ok(c, src),
        0 <= i < c.len(),
        key_of(e) == key_of(c[i]),
        e.wf_for(src),
    ensures
        entries_ok(c.update(i, e), src),
{
    let d = c.update(i, e);
    assert forall|x: int, y: int|
        0 <= x < d.len() && 0 <= y < d.len() && key_of(#[trigger] d[x]) == key_of(#[trigger] d[y]) implies x == y by {
        assert(key_of(d[x]) == key_of(c[x]));
        assert(key_of(d[y]) == key_of(c[y]));
    }
}

/// The chain `v` cut to its first `k` stages; the last valid pattern of a
/// proper prefix is its last stage's own pattern.
pub open spec fn prefix_chain(v: ChainView, k: int) -> ChainView {
    ChainView {
        stages: v.stages.subrange(0, k),
        last_valid: if k == v.stages.len() { v.last_valid } else { prefixed(v.stages[k - 1]) },
        ..v
    }
}

/// Compares two stage lists.
fn same_stages(a: &Vec<SearchLine>, b: &Vec<SearchLine>) -> (r: bool)
    ensures
        r == (stages_of(a@) == stages_of(b@)),
{
    if a.len() != b.len() {
        proof {
            assert(stages_of(a@).len() != stages_of(b@).len());
        }
        return false;
    }
    let mut i: usize = 0;
    while i < a.len()
        invariant
            a@.len() == b@.len(),
            0 <= i <= a@.len(),
            forall|j: int| 0 <= j < i ==> (#[trigger] a@[j])@ == b@[j]@,
        decreases a@.len() - i,
    {
        let x = &a[i];
        let y = &b[i];
        if !(x.line == y.line && x.context == y.context && x.case_sensitive == y.case_sensitive
            && x.inverse == y.inverse) {
            proof {
                assert(stages_of(a@)[i as int] != stages_of(b@)[i as int]);
            }
            return false;
        }
        i = i + 1;
    }
    assert(stages_of(a@) =~= stages_of(b@));
    true
}

/// The cache key of a chain.
fn get_cache_key(state: &State) -> (r: CacheKey)
    requires
        state.wf(),
    ensures
        r.search_lines == state@.stages.len(),
        r.context == state@.stages.last().context,
        r.active_regex@ == state@.last_valid,
{
    let active_regex = state.last_valid_regex().as_str().to_owned();
    CacheKey { search_lines: state.stage_len(), context: state.current_context(), active_regex }
}

impl Core {
    /// Every entry is consistent with the source lines `src`, and keys are
    /// unique.
    pub closed spec fn consistent(&self, src: Seq<String>) -> bool {
        entries_ok(self.cache@, strings_view(src))
    }

    /// Some cached generator serves the chain `v` (same stages, same last
    /// valid pattern).
    pub closed spec fn has(&self, v: ChainView) -> bool {
        exists|i: int| 0 <= i < self.cache@.len() && #[trigger] self.cache@[i].serves(v)
    }

    /// The position of the generator that serves `v`.
    closed spec fn slot_of(&self, v: ChainView) -> int {
        choose|i: int| 0 <= i < self.cache@.len() && #[trigger] self.cache@[i].serves(v)
    }

    /// How many input lines the generator that serves `v` has scanned; zero
    /// where none does.
    pub closed spec fn scanned(&self, v: ChainView) -> nat {
        if self.has(v) {
            self.cache@[self.slot_of(v)].output_generator.processed()
        } else {
            0
        }
    }

    /// The entry at `i` is the one that serves `v`.
    proof fn lemma_slot(&self, src: Seq<String>, v: ChainView, i: int)
        requires
            self.consistent(src),
            0 <= i < self.cache@.len(),
            self.cache@[i].serves(v),
        ensures
            self.has(v),
            self.slot_of(v) == i,
            self.scanned(v) == self.cache@[i].output_generator.processed(),
    {
        let j = self.slot_of(v);
        assert(self.cache@[j].serves(v));
        assert(self.cache@[i].wf_for(strings_view(src)));
        assert(self.cache@[j].wf_for(strings_view(src)));
        assert(key_of(self.cache@[i]) == key_of(self.cache@[j]));
    }

    /// A chain's generator never scans past its input.
    pub proof fn lemma_scanned_bound(&self, v: ChainView)
        requires
            self.consistent(v.source),
        ensures
            self.scanned(v) <= chain_params(v).lines.len(),
    {
        if self.has(v) {
            let i = self.slot_of(v);
            assert(self.cache@[i].wf_for(strings_view(v.source)));
            self.cache@[i].output_generator.lemma_wf_bounds();
        }
    }

    /// Whether a chain is served depends on its stages and last valid
    /// pattern alone.
    proof fn lemma_has_same(&self, x: ChainView, y: ChainView)
        requires
            x.stages == y.stages,
            x.last_valid == y.last_valid,
            self.has(x),
        ensures
            self.has(y),
    {
        let i = self.slot_of(x);
        assert(self.cache@[i].serves(y));
    }

    pub fn new() -> (r: Core)
        ensures
            forall|src: Seq<String>| r.consistent(src),
            forall|v: ChainView| !r.has(v),
    {
        Core { cache: Vec::new() }
    }

    /// Drops every cached generator; to be called when the source changes.
    pub fn clear_cache(&mut self)
        ensures
            forall|src: Seq<String>| final(self).consistent(src),
            forall|v: ChainView| !final(self).has(v),
    {
        self.cache = Vec::new();
    }

    /// Makes sure that the chain and each of its prefixes has a generator,
    /// and returns the position of the chain's own.
    ///
    /// A generator is reused where one has the chain's key (stage count,
    /// context, compiled pattern), was built for the same last-stage text,
    /// and serves the same earlier stages; the last condition keeps a
    /// generator built on other input from coming back. Otherwise a fresh
    /// generator takes the key's place, reading the source (first stage) or
    /// the full output of the stage before. No entry is ever removed.
    #[verifier::rlimit(60)]
    #[verifier::spinoff_prover]
    fn populate_cache(&mut self, state: &State) -> (idx: usize)
        requires
            old(self).consistent(state@.source),
            state.wf(),
            input_fits(strings_view(state@.source)),
        ensures
            final(self).consistent(state@.source),
            idx < final(self).cache@.len(),
            final(self).cache@[idx as int].serves(state@),
            old(self).has(state@) ==> idx == old(self).slot_of(state@) && final(self).cache@[idx as int]
                == old(self).cache@[idx as int],
            !old(self).has(state@) ==> final(self).cache@[idx as int].output_generator.processed() == 0,
            final(self).scanned(state@) == old(self).scanned(state@),
            final(self).cache@.len() >= old(self).cache@.len(),
            forall|i: int| 0 <= i < old(self).cache@.len() ==> key_of(#[trigger] final(self).cache@[i]) == key_of(
                old(self).cache@[i],
            ),
            forall|i: int|
                0 <= i < old(self).cache@.len() && old(self).cache@[i].key.search_lines >= state@.stages.len()
                    && i != idx ==> #[trigger] final(self).cache@[i] == old(self).cache@[i],
            forall|i: int|
                old(self).cache@.len() <= i < final(self).cache@.len() ==> (#[trigger] final(self).cache@[i]).key.search_lines
                    <= state@.stages.len(),
            forall|k: int| 1 <= k <= state@.stages.len() ==> final(self).has(#[trigger] prefix_chain(state@, k)),
        decreases state@.stages.len(),
    {
        let ghost src = strings_view(state@.source);
        let ghost v = state@;
        let ghost c0 = self.cache@;
        let n = state.stage_len();
        let mut prefix_idx: usize = 0;
        if n > 1 {
            let pre = state.duplicate().revert_partial_match();
            prefix_idx = self.populate_cache(&pre);
            proof {
                assert forall|k: int| 1 <= k <= n - 1 implies self.has(#[trigger] prefix_chain(v, k)) by {
                    assert(self.has(prefix_chain(pre@, k)));
                    assert(prefix_chain(pre@, k).stages =~= prefix_chain(v, k).stages);
                    self.lemma_has_same(prefix_chain(pre@, k), prefix_chain(v, k));
                }
            }
        }
        let ghost c1 = self.cache@;
        proof {
            if old(self).has(v) {
                let s = old(self).slot_of(v);
                old(self).lemma_slot(state@.source, v, s);
                assert(self.cache@[s] == c0[s]);
                self.lemma_slot(state@.source, v, s);
            }
        }
        let stages = state.search_lines();
        let key = get_cache_key(state);
        let last_text = stages[n - 1].line.clone();
        assert(stages_of(stages@)[n - 1] == stages@[n - 1]@);
        let mut slot: Option<usize> = None;
        let mut i: usize = 0;
        while i < self.cache.len()
            invariant
                0 <= i <= self.cache@.len(),
                self.cache@ == c1,
                slot matches Some(j) ==> j < self.cache@.len() && key_of(self.cache@[j as int]) == (
                    key.search_lines,
                    key.context,
                    key.active_regex@,
                ),
                slot is None ==> forall|j: int| 0 <= j < i ==> key_of(#[trigger] self.cache@[j]) != (
                    key.search_lines,
                    key.context,
                    key.active_regex@,
                ),
            ensures
                self.cache@ == c1,
                slot matches Some(j) ==> j < self.cache@.len() && key_of(self.cache@[j as int]) == (
                    key.search_lines,
                    key.context,
                    key.active_regex@,
                ),
                slot is None ==> forall|j: int| 0 <= j < self.cache@.len() ==> key_of(#[trigger] self.cache@[j]) != (
                    key.search_lines,
                    key.context,
                    key.active_regex@,
                ),
            decreases self.cache@.len() - i,
        {
            let k = &self.cache[i].key;
            if k.search_lines == key.search_lines && k.context == key.context && k.active_regex == key.active_regex {
                slot = Some(i);
                break;
            }
            i = i + 1;
        }
        proof {
            if self.has(v) {
                let s = self.slot_of(v);
                self.lemma_slot(state@.source, v, s);
                assert(self.cache@[s].wf_for(src));
                assert(key_of(self.cache@[s]) == (key.search_lines, key.context, key.active_regex@));
                if slot is None {
                    assert(key_of(self.cache@[s]) != (key.search_lines, key.context, key.active_regex@));
                }
            }
        }
        if let Some(j) = slot {
            if self.cache[j].search_line == last_text && same_stages(&self.cache[j].stages, &stages) {
                proof {
                    let x = prefix_chain(v, n as int);
                    assert(x.stages =~= v.stages);
                    assert(self.cache@[j as int].serves(v));
                    assert(self.cache@[j as int].serves(x));
                    assert(j < c0.len());
                    assert(c0[j as int] == c1[j as int]);
                    old(self).lemma_slot(state@.source, v, j as int);
                    self.lemma_slot(state@.source, v, j as int);
                }
                return j;
            }
            proof {
                if self.has(v) {
                    let s = self.slot_of(v);
                    assert(self.cache@[s].wf_for(src));
                    assert(s == j);
                }
            }
        }
        assert(!self.has(v));
        assert(!old(self).has(v));
        proof {
            lemma_stage_lines_fit(src, state@.stages);
        }
        let lines = if n == 1 {
            copy_strings(state.source_lines())
        } else {
            let ghost pv = reverted(state@);
            let mut e = self.cache.remove(prefix_idx);
            let t = e.output_generator.full_string_vec();
            proof {
                assert(state@.stages.drop_last() == pv.stages);
                assert(e.wf_for(src));
            }
            self.cache.insert(prefix_idx, e);
            proof {
                assert(self.cache@ =~= c1.update(prefix_idx as int, e));
                lemma_update_ok(c1, src, prefix_idx as int, e);
            }
            t
        };
        let ghost c2 = self.cache@;
        proof {
            assert forall|k: int| 1 <= k <= n - 1 implies self.has(#[trigger] prefix_chain(v, k)) by {
                let x = prefix_chain(v, k);
                let w = c1.len();
                assert(exists|m: int| 0 <= m < c1.len() && #[trigger] c1[m].serves(x));
                let m = choose|m: int| 0 <= m < c1.len() && #[trigger] c1[m].serves(x);
                assert(self.cache@[m].serves(x));
            }
        }
        let output_generator = OutputGenerator::new(
            lines,
            state.last_valid_regex(),
            state.last_search_line_empty(),
            state.current_context(),
            state.inverted(),
        );
        let entry = CacheEntry { key, search_line: last_text, stages, output_generator };
        let r = match slot {
            Some(j) => {
                self.cache.remove(j);
                self.cache.insert(j, entry);
                proof {
                    assert(self.cache@ =~= c2.update(j as int, entry));
                    lemma_update_ok(c2, src, j as int, entry);
                }
                j
            },
            None => {
                self.cache.push(entry);
                proof {
                    let d = self.cache@;
                    assert forall|x: int, y: int|
                        0 <= x < d.len() && 0 <= y < d.len() && key_of(#[trigger] d[x]) == key_of(#[trigger] d[y])
                            implies x == y by {
                        if x < c2.len() && y < c2.len() {
                            assert(d[x] == c2[x] && d[y] == c2[y]);
                        } else if x < c2.len() {
                            assert(d[x] == c2[x]);
                            assert(key_of(c2[x]) == key_of(c1[x]));
                        } else if y < c2.len() {
                            assert(d[y] == c2[y]);
                            assert(key_of(c2[y]) == key_of(c1[y]));
                        }
                    }
                }
                self.cache.len() - 1
            },
        };
        proof {
            self.lemma_slot(state@.source, v, r as int);
            assert forall|k: int| 1 <= k <= n implies self.has(#[trigger] prefix_chain(v, k)) by {
                let x = prefix_chain(v, k);
                if k == n {
                    assert(x.stages =~= v.stages);
                    assert(self.cache@[r as int].serves(x));
                } else {
                    let m = choose|m: int| 0 <= m < c2.len() && #[trigger] c2[m].serves(x);
                    assert(c2[m].wf_for(src));
                    if m == r {
                        assert(key_of(c2[m]).0 == k);
                    }
                    assert(self.cache@[m].serves(x));
                }
            }
        }
        r
    }

    /// Takes the entry at `i` out to work on its generator.
    fn take_entry(&mut self, i: usize) -> (e: CacheEntry)
        requires
            i < old(self).cache@.len(),
        ensures
            e == old(self).cache@[i as int],
            final(self).cache@ == old(self).cache@.remove(i as int),
    {
        self.cache.remove(i)
    }

    /// Puts back an entry taken out at `i`, with the same key and still well
    /// formed; the chain `v` it serves has then scanned what its generator has.
    fn put_entry(&mut self, i: usize, e: CacheEntry, Ghost(c): Ghost<Seq<CacheEntry>>, Ghost(src): Ghost<Seq<String>>, Ghost(v): Ghost<ChainView>)
        requires
            entries_ok(c, strings_view(src)),
            i < c.len(),
            old(self).cache@ == c.remove(i as int),
            key_of(e) == key_of(c[i as int]),
            e.wf_for(strings_view(src)),
            e.serves(v),
        ensures
            final(self).cache@ == c.update(i as int, e),
            final(self).consistent(src),
            final(self).scanned(v) == e.output_generator.processed(),
    {
        self.cache.insert(i, e);
        proof {
            assert(self.cache@ =~= c.update(i as int, e));
            lemma_update_ok(c, strings_view(src), i as int, e);
            self.lemma_slot(src, v, i as int);
        }
    }

    /// The full output of the chain's last stage: the retained texts joined
    /// by newlines. The last stage is scanned to its end.
    pub fn get_full_output_string(&mut self, state: &State) -> (r: String)
        requires
            old(self).consistent(state@.source),
            state.wf(),
            input_fits(strings_view(state@.source)),
        ensures
            final(self).consistent(state@.source),
            final(self).scanned(state@) == chain_params(state@).lines.len(),
            r@ == joined(texts_of(chain_output(state@))),
    {
        let i = self.populate_cache(state);
        let ghost c = self.cache@;
        let mut e = self.take_entry(i);
        assert(e.wf_for(strings_view(state@.source)));
        let r = e.output_generator.full_string();
        self.put_entry(i, e, Ghost(c), Ghost(state@.source), Ghost(state@));
        r
    }

    /// The widest line (in bytes) that the chain's last stage has scanned;
    /// asking scans nothing more.
    pub fn widest_line_seen_so_far(&mut self, state: &State) -> (r: u32)
        requires
            old(self).consistent(state@.source),
            state.wf(),
            input_fits(strings_view(state@.source)),
        ensures
            final(self).consistent(state@.source),
            final(self).scanned(state@) == old(self).scanned(state@),
            r == widest(chain_params(state@).lines, final(self).scanned(state@)),
    {
        let i = self.populate_cache(state);
        let r = self.cache[i].output_generator.widest_line_seen_so_far();
        proof {
            assert(self.cache@[i as int].wf_for(strings_view(state@.source)));
            self.lemma_slot(state@.source, state@, i as int);
        }
        r
    }

    /// Asks the chain's last stage for at least `length` output lines and
    /// returns how many it has realized.
    pub fn is_output_length_at_least(&mut self, state: &State, length: u32) -> (r: u32)
        requires
            old(self).consistent(state@.source),
            state.wf(),
            input_fits(strings_view(state@.source)),
        ensures
            final(self).consistent(state@.source),
            final(self).scanned(state@) == scan_stop(chain_params(state@), old(self).scanned(state@), chunk_end(length)),
            r == output_after(chain_params(state@), final(self).scanned(state@)).len(),
    {
        let i = self.populate_cache(state);
        let ghost c = self.cache@;
        proof {
            self.lemma_slot(state@.source, state@, i as int);
        }
        let mut e = self.take_entry(i);
        assert(e.wf_for(strings_view(state@.source)));
        e.output_generator.request(length);
        let r = e.output_generator.len_simple();
        proof {
            e.output_generator.lemma_wf_bounds();
        }
        self.put_entry(i, e, Ghost(c), Ghost(state@.source), Ghost(state@));
        r
    }

    /// The output length of the chain's last stage so far: exact once its
    /// input is scanned to the end, else a lower bound. Asking scans nothing
    /// more.
    pub fn get_current_output_length(&mut self, state: &State) -> (r: Len)
        requires
            old(self).consistent(state@.source),
            state.wf(),
            input_fits(strings_view(state@.source)),
        ensures
            final(self).consistent(state@.source),
            final(self).scanned(state@) == old(self).scanned(state@),
            r == if final(self).scanned(state@) == chain_params(state@).lines.len() {
                Len::Is(output_after(chain_params(state@), final(self).scanned(state@)).len() as u32)
            } else {
                Len::AtLeast(output_after(chain_params(state@), final(self).scanned(state@)).len() as u32)
            },
    {
        let i = self.populate_cache(state);
        let r = self.cache[i].output_generator.len();
        proof {
            let g = self.cache@[i as int].output_generator;
            assert(self.cache@[i as int].wf_for(strings_view(state@.source)));
            g.lemma_wf_bounds();
            self.lemma_slot(state@.source, state@, i as int);
        }
        r
    }

    /// The frame for the chain: its geometry and stages, the visible lines of
    /// its last stage's output after asking for the lines down to the bottom
    /// of the pager (and a few more), and the status line.
    pub fn get_render_state(&mut self, state: &State) -> (r: RenderState)
        requires
            old(self).consistent(state@.source),
            state.wf(),
            input_fits(strings_view(state@.source)),
        ensures
            final(self).consistent(state@.source),
            final(self).scanned(state@) == scan_stop(
                chain_params(state@),
                old(self).scanned(state@),
                chunk_end(sat_add(
                    sat_add(
                        state@.pager_y as int,
                        pager_content_height_of(pager_window_height_of(state@.max_y as int, state@.stages.len() as int)),
                    ),
                    REQUEST_BUFFER_SIZE as int,
                ) as u32),
            ),
            frame_ok(
                r,
                stage_compiles(state@.stages.last()),
                state@.max_y,
                state@.max_x,
                state@.pager_y,
                state@.pager_x,
                state@.stages.map_values(|s: Stage| prefixed(s)),
                state@.stages.last().context,
                output_after(chain_params(state@), final(self).scanned(state@)),
                final(self).scanned(state@) == chain_params(state@).lines.len(),
            ),
    {
        let i = self.populate_cache(state);
        let ghost c = self.cache@;
        proof {
            self.lemma_slot(state@.source, state@, i as int);
        }
        let mut e = self.take_entry(i);
        proof {
            assert(e.wf_for(strings_view(state@.source)));
            assert(e.output_generator.params() == chain_params(state@));
        }
        let texts = state.search_line_strings_with_case_sensitivity();
        assert(strings_view(texts@) =~= state@.stages.map_values(|s: Stage| prefixed(s)));
        let r = produce_render_state(
            state.regex_valid(),
            state.max_y(),
            state.max_x(),
            state.pager_y(),
            state.pager_x(),
            &texts,
            state.current_context(),
            &mut e.output_generator,
        );
        proof {
            e.output_generator.lemma_wf_bounds();
        }
        self.put_entry(i, e, Ghost(c), Ghost(state@.source), Ghost(state@));
        r
    }
}

} // verus!
