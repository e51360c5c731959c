//! The render thread, left alone, comes to rest: every round brings it nearer
//! to the end of its work.

use crate::arith::{window_end, window_start};
use crate::interleave::{law_walk_visits_each_once, outward};
use crate::render_loop::{
    law_finished_search_is_complete, law_idle_means_done, law_search_ends, lemma_advanced_wf,
    lemma_batch_wf, lemma_next_work_wf, lemma_page_scanned_wf, lemma_round_started_wf, next_work,
    scanned_page, search_ahead, settled, Phase, RenderState,
};
use crate::renderer::{
    some_unsearched, window_incomplete, PrevRender, SearchQuad, RENDER_WINDOW,
};
use vstd::math::{max, min};
use vstd::prelude::*;

verus! {

/// How much is left to do for a page: to search it weighs more than to render
/// it, because a page on which something is found is rendered again.
pub open spec fn page_work(p: PrevRender) -> nat {
    (if p.num_search_found is None {
        2nat
    } else {
        0
    }) + if p.successful {
        0nat
    } else {
        1
    }
}

/// How much is left to do for all pages.
pub open spec fn work_left(rendered: Seq<PrevRender>) -> nat
    decreases rendered.len(),
{
    if rendered.len() == 0 {
        0
    } else {
        work_left(rendered.drop_last()) + page_work(rendered.last())
    }
}

impl RenderState {
    /// The next state, if there is no message and nothing fails: the page in
    /// hand is rendered with `num_results` results on it, or searched with
    /// `quads` found.
    pub open spec fn left_alone(
        self,
        num_results: usize,
        quads: Option<Vec<SearchQuad>>,
    ) -> RenderState {
        match self.phase {
            Phase::StartRound => self.round_started(),
            Phase::RenderPage(_) => self.page_shown(num_results),
            Phase::PollRendering => self.advanced(),
            Phase::SearchPage { .. } => self.page_scanned(quads),
            Phase::PollSearching { from } => self.batch_at(from, from as int),
            _ => self,
        }
    }

    /// The end of the search leaves no page of the window to render.
    pub open spec fn search_is_last(self) -> bool {
        !window_incomplete(self.rendered, self.current(), self.n_pages) || some_unsearched(
            self.rendered,
        )
    }

    /// More than the number of steps up to the next page that is rendered or
    /// searched, or to rest.
    pub open spec fn steps_left(self) -> int {
        match self.phase {
            Phase::PollRendering => 4 * self.n_pages + 10,
            Phase::PollSearching { from } => if self.search_is_last() {
                1 + search_ahead(self, from as int)
            } else {
                2 * self.n_pages + 5 + search_ahead(self, from as int)
            },
            Phase::StartRound => 2 * self.n_pages + 4,
            _ => 0,
        }
    }
}

/// The work for one page counts for the whole.
proof fn lemma_work_updated(rendered: Seq<PrevRender>, i: int, p: PrevRender)
    requires
        0 <= i < rendered.len(),
    ensures
        work_left(rendered.update(i, p)) == work_left(rendered) - page_work(rendered[i])
            + page_work(p),
    decreases rendered.len(),
{
    let after = rendered.update(i, p);
    if i == rendered.len() - 1 {
        assert(after.drop_last() =~= rendered.drop_last());
    } else {
        lemma_work_updated(rendered.drop_last(), i, p);
        assert(after.drop_last() =~= rendered.drop_last().update(i, p));
    }
}

/// Where no page needs work, all are settled.
proof fn lemma_all_settled(queue: Seq<usize>, walk: Seq<usize>, rendered: Seq<PrevRender>)
    requires
        next_work(queue, walk, rendered).2 is None,
    ensures
        forall|i: int| 0 <= i < walk.len() ==> settled(rendered[#[trigger] walk[i] as int]),
    decreases queue.len() + walk.len(),
{
    if queue.len() > 0 {
        lemma_all_settled(queue.skip(1), walk, rendered);
    } else if walk.len() > 0 {
        lemma_all_settled(queue, walk.skip(1), rendered);
        assert forall|i: int| 0 <= i < walk.len() implies settled(
            rendered[#[trigger] walk[i] as int],
        ) by {
            if i > 0 {
                assert(walk[i] == walk.skip(1)[i - 1]);
            }
        }
    }
}

/// A round that finds no page to render, while no page is to be searched, has
/// looked at the whole window.
proof fn lemma_window_complete(s: RenderState)
    requires
        s.pages_wf(),
        next_work(s.queue, s.round_walk(), s.rendered).2 is None,
        !(s.term is Some && some_unsearched(s.rendered)),
    ensures
        !window_incomplete(s.rendered, s.current(), s.n_pages),
{
    let walk = s.round_walk();
    let start = window_start(s.current(), RENDER_WINDOW) as usize;
    let end = window_end(s.current(), s.n_pages, RENDER_WINDOW) as usize;
    let window = outward(s.current(), start, end);
    law_walk_visits_each_once(s.current(), start, end);
    assert(window.len() <= RENDER_WINDOW);
    assert(walk =~= window);
    lemma_all_settled(s.queue, walk, s.rendered);
    assert forall|i: int| start <= i < end implies (#[trigger] s.rendered[i]).successful by {
        assert(window.contains(i as usize));
        let k = choose|k: int| 0 <= k < window.len() && window[k] == i as usize;
        assert(settled(s.rendered[walk[k] as int]));
    }
}

/// A search that leaves no page to render does not lead to another round.
proof fn lemma_last_search_rests(s: RenderState, from: usize)
    requires
        s.pages_wf(),
        s.term is Some,
        s.queue.len() == 0,
        s.search_is_last(),
        from <= s.n_pages,
        s.scanned(from as int),
    ensures
        s.batch_at(from, from as int).rendered == s.rendered,
        s.batch_at(from, from as int).n_pages == s.n_pages,
        s.batch_at(from, from as int).phase !is StartRound,
        s.batch_at(from, from as int).phase !is PollRendering,
        s.batch_at(from, from as int).phase is PollSearching ==> s.batch_at(
            from,
            from as int,
        ).search_is_last(),
{
    law_finished_search_is_complete(s, from, from as int);
}

/// A search brings the thread nearer to rest with every batch.
proof fn lemma_search_step(s: RenderState, from: usize)
    requires
        s.pages_wf(),
        s.term is Some,
        s.queue.len() == 0,
        from <= s.n_pages,
        s.scanned(from as int),
    ensures
        s.batch_at(from, from as int).rendered == s.rendered,
        s.search_is_last() ==> 0 <= s.batch_at(from, from as int).steps_left() < 1 + search_ahead(
            s,
            from as int,
        ),
        0 <= s.batch_at(from, from as int).steps_left() < 2 * s.n_pages + 5 + search_ahead(
            s,
            from as int,
        ),
{
    law_search_ends(s, from);
    if s.search_is_last() {
        lemma_last_search_rests(s, from);
    }
}

/// The end of a walk brings the thread nearer to rest.
proof fn lemma_walk_done_step(s: RenderState)
    requires
        s.pages_wf(),
        s.queue.len() == 0,
    ensures
        s.walk_done().rendered == s.rendered,
        s.walk_done().n_pages == s.n_pages,
        0 <= s.walk_done().steps_left() < 4 * s.n_pages + 10,
        s.search_is_last() && s.term is Some ==> s.walk_done().steps_left() < 2 * s.n_pages + 4,
{
    if s.term is Some {
        lemma_search_step(s, s.start_point);
    }
}

/// Left alone, the thread comes nearer to rest with every step: there is less
/// work left, or fewer steps up to the next piece of it.
pub proof fn law_every_step_leads_to_rest(
    s: RenderState,
    num_results: usize,
    quads: Option<Vec<SearchQuad>>,
)
    requires
        s.wf(),
        s.in_rounds(),
        s.phase !is AwaitNotif,
    ensures
        s.left_alone(num_results, quads).wf(),
        s.left_alone(num_results, quads).in_rounds(),
        s.left_alone(num_results, quads).steps_left() >= 0,
        work_left(s.left_alone(num_results, quads).rendered) < work_left(s.rendered) || (work_left(
            s.left_alone(num_results, quads).rendered,
        ) == work_left(s.rendered) && s.left_alone(num_results, quads).steps_left()
            < s.steps_left()),
{
    match s.phase {
        Phase::StartRound => {
            lemma_round_started_wf(s);
            let w = RenderState { walk: s.round_walk(), ..s };
            let (queue, walk, page) = next_work(w.queue, w.walk, w.rendered);
            if page is None {
                lemma_next_work_wf(w.queue, w.walk, w.rendered);
                let t = RenderState { queue, walk, ..w };
                if !(s.term is Some && some_unsearched(s.rendered)) {
                    lemma_window_complete(s);
                }
                lemma_walk_done_step(t);
            }
        },
        Phase::RenderPage(page) => {
            lemma_work_updated(
                s.rendered,
                page as int,
                s.page_shown(num_results).rendered[page as int],
            );
        },
        Phase::PollRendering => {
            lemma_advanced_wf(s);
            let (queue, walk, page) = next_work(s.queue, s.walk, s.rendered);
            if page is None {
                lemma_next_work_wf(s.queue, s.walk, s.rendered);
                lemma_walk_done_step(RenderState { queue, walk, ..s });
            }
        },
        Phase::SearchPage { page, from } => {
            lemma_page_scanned_wf(s, quads);
            lemma_work_updated(
                s.rendered,
                page as int,
                scanned_page(s.rendered[page as int], quads),
            );
        },
        Phase::PollSearching { from } => {
            lemma_batch_wf(s, from, from as int);
            lemma_search_step(s, from);
        },
        _ => {},
    }
}

/// The state after `n` steps without a message and without a failure, the
/// first of them with what `outcomes` says of `at`.
pub open spec fn after_steps(
    s: RenderState,
    outcomes: spec_fn(nat) -> (usize, Option<Vec<SearchQuad>>),
    at: nat,
    n: nat,
) -> RenderState
    decreases n,
{
    if n == 0 {
        s
    } else {
        after_steps(
            s.left_alone(outcomes(at).0, outcomes(at).1),
            outcomes,
            at + 1,
            (n - 1) as nat,
        )
    }
}

proof fn lemma_rest_is_reached(
    s: RenderState,
    outcomes: spec_fn(nat) -> (usize, Option<Vec<SearchQuad>>),
    at: nat,
)
    requires
        s.wf(),
        s.in_rounds(),
    ensures
        exists|n: nat|
            {
                let t = #[trigger] after_steps(s, outcomes, at, n);
                &&& t.wf()
                &&& t.phase is AwaitNotif
                &&& t.start_point == s.start_point && t.n_pages == s.n_pages && t.term == s.term
            },
    decreases work_left(s.rendered), s.steps_left(),
{
    if s.phase is AwaitNotif {
        assert(after_steps(s, outcomes, at, 0) == s);
    } else {
        let (num_results, quads) = outcomes(at);
        let t = s.left_alone(num_results, quads);
        law_every_step_leads_to_rest(s, num_results, quads);
        lemma_rest_is_reached(t, outcomes, at + 1);
        let n = choose|n: nat|
            {
                let u = #[trigger] after_steps(t, outcomes, at + 1, n);
                &&& u.wf()
                &&& u.phase is AwaitNotif
                &&& u.start_point == t.start_point && u.n_pages == t.n_pages && u.term == t.term
            };
        assert(after_steps(s, outcomes, at, n + 1) == after_steps(t, outcomes, at + 1, n));
    }
}

/// Left alone, whatever is found on the pages, the thread comes to rest after a
/// number of steps. Then no page is queued, all pages around the shown one are
/// rendered, and every page has been searched, if a text is searched for.
pub proof fn law_rounds_come_to_an_end(
    s: RenderState,
    outcomes: spec_fn(nat) -> (usize, Option<Vec<SearchQuad>>),
    at: nat,
)
    requires
        s.wf(),
        s.in_rounds(),
    ensures
        ({
            let shown = min(s.start_point as int, s.n_pages - 1);
            let start = max(0, shown - 12);
            exists|n: nat|
                {
                    let t = #[trigger] after_steps(s, outcomes, at, n);
                    &&& t.wf()
                    &&& t.phase is AwaitNotif
                    &&& t.queue.len() == 0
                    &&& !window_incomplete(t.rendered, t.current(), t.n_pages)
                    &&& forall|i: int|
                        start <= i < start + 24 && i < s.n_pages ==> (
                        #[trigger] t.rendered[i]).successful
                    &&& t.term == s.term
                    &&& s.term is Some ==> t.searched(0, t.n_pages as int) && forall|i: int|
                        0 <= i < s.n_pages ==> (#[trigger] t.rendered[i]).num_search_found is Some
                }
        }),
{
    lemma_rest_is_reached(s, outcomes, at);
    let n = choose|n: nat|
        {
            let t = #[trigger] after_steps(s, outcomes, at, n);
            &&& t.wf()
            &&& t.phase is AwaitNotif
            &&& t.start_point == s.start_point && t.n_pages == s.n_pages && t.term == s.term
        };
    law_idle_means_done(after_steps(s, outcomes, at, n));
}

} // verus!
