//! The walk of one title through its pipeline, and the collection of
//! per-title results at the end of a run.  The application performs the
//! outside steps — creating the output directory, reading pages, writing
//! the finished archive — and reports each outcome; what comes next, and
//! what a failure touches and what it spares, is decided here.
//!
//! A chapter's failure skips only that chapter: the title moves on to
//! its next chapter and still reaches its metadata step.  Only a failure
//! to create the output directory, or a fatal metadata error, fails the
//! title itself; no failure ever touches another title.

use vstd::prelude::*;

verus! {

/// Where a title stands in its pipeline.
#[derive(Debug, Clone, Copy, PartialEq, Eq, Structural)]
pub enum TitlePhase {
    /// The title's output directory has yet to be created.
    CreateDir,
    /// Chapters are in work; next the one at `next_chapter`.
    Chapters,
    /// Every chapter is dealt with; the metadata step remains.
    Metadata,
    /// Nothing remains.
    Done,
}

/// The course of one title, advanced step by step by its worker.
#[derive(Debug, Clone, Copy, PartialEq, Eq, Structural)]
pub struct TitleRun {
    /// How many chapters the title was found to have.
    pub n_chapters: usize,
    /// The chapter to process next; chapters before it are dealt with.
    pub next_chapter: usize,
    /// How many chapters failed and were skipped.
    pub chapters_failed: usize,
    /// The step the title stands before.
    pub phase: TitlePhase,
    /// Whether the title as a whole failed.
    pub failed: bool,
}

impl TitleRun {
    /// A state the transitions preserve.
    pub open spec fn wf(&self) -> bool {
        &&& self.next_chapter <= self.n_chapters
        &&& self.chapters_failed <= self.next_chapter
        &&& (self.phase is CreateDir ==> self.next_chapter == 0)
        &&& (self.phase is Chapters ==> self.next_chapter < self.n_chapters)
        &&& (self.phase is Metadata ==> self.next_chapter == self.n_chapters)
        &&& (!(self.phase is Done) ==> !self.failed)
    }

    /// The state after the attempt to create the output directory: on
    /// failure the title is done and failed; otherwise its chapters are
    /// next, or the metadata step when it has none.
    pub open spec fn spec_after_dir(self, ok: bool) -> TitleRun {
        if !ok {
            TitleRun { phase: TitlePhase::Done, failed: true, ..self }
        } else if self.n_chapters == 0 {
            TitleRun { phase: TitlePhase::Metadata, ..self }
        } else {
            TitleRun { phase: TitlePhase::Chapters, ..self }
        }
    }

    /// The state after one chapter's outcome: the next chapter comes up
    /// either way — a chapter's failure is counted, skipped, and spares
    /// its siblings and the title.
    pub open spec fn spec_after_chapter(self, ok: bool) -> TitleRun {
        TitleRun {
            next_chapter: (self.next_chapter + 1) as usize,
            chapters_failed: if ok {
                self.chapters_failed
            } else {
                (self.chapters_failed + 1) as usize
            },
            phase: if self.next_chapter + 1 < self.n_chapters {
                TitlePhase::Chapters
            } else {
                TitlePhase::Metadata
            },
            ..self
        }
    }

    /// The state after the metadata step: the title is done, and failed
    /// exactly when that step failed.
    pub open spec fn spec_after_metadata(self, ok: bool) -> TitleRun {
        TitleRun { phase: TitlePhase::Done, failed: !ok, ..self }
    }

    /// A title taken up with its chapter count: everything ahead.
    pub fn start(n_chapters: usize) -> (r: TitleRun)
        ensures
            r.wf(),
            r == (TitleRun {
                n_chapters,
                next_chapter: 0,
                chapters_failed: 0,
                phase: TitlePhase::CreateDir,
                failed: false,
            }),
    {
        TitleRun {
            n_chapters,
            next_chapter: 0,
            chapters_failed: 0,
            phase: TitlePhase::CreateDir,
            failed: false,
        }
    }

    /// Advances past the directory step.
    pub fn report_dir_created(&mut self, ok: bool)
        requires
            old(self).wf(),
            old(self).phase is CreateDir,
        ensures
            final(self).wf(),
            *final(self) == old(self).spec_after_dir(ok),
    {
        if !ok {
            self.phase = TitlePhase::Done;
            self.failed = true;
        } else if self.n_chapters == 0 {
            self.phase = TitlePhase::Metadata;
        } else {
            self.phase = TitlePhase::Chapters;
        }
    }

    /// Advances past one chapter, whatever came of it.
    pub fn report_chapter_done(&mut self, ok: bool)
        requires
            old(self).wf(),
            old(self).phase is Chapters,
        ensures
            final(self).wf(),
            *final(self) == old(self).spec_after_chapter(ok),
    {
        self.next_chapter = self.next_chapter + 1;
        if !ok {
            self.chapters_failed = self.chapters_failed + 1;
        }
        if self.next_chapter < self.n_chapters {
            self.phase = TitlePhase::Chapters;
        } else {
            self.phase = TitlePhase::Metadata;
        }
    }

    /// Advances past the metadata step.
    pub fn report_metadata_done(&mut self, ok: bool)
        requires
            old(self).wf(),
            old(self).phase is Metadata,
        ensures
            final(self).wf(),
            *final(self) == old(self).spec_after_metadata(ok),
    {
        self.phase = TitlePhase::Done;
        self.failed = !ok;
    }
}

/// A chapter's failure is contained: the title stands afterwards exactly
/// where a success would have left it — same next chapter, same phase,
/// the title itself unfailed — and only the failure count differs.
pub proof fn lemma_chapter_failure_contained(s: TitleRun)
    requires
        s.wf(),
        s.phase is Chapters,
    ensures
        s.spec_after_chapter(false).next_chapter == s.spec_after_chapter(true).next_chapter,
        s.spec_after_chapter(false).phase == s.spec_after_chapter(true).phase,
        !s.spec_after_chapter(false).failed,
        s.spec_after_chapter(false).chapters_failed == s.chapters_failed + 1,
        s.spec_after_chapter(false).wf(),
{
}

/// The outcome one worker reports for its title.
pub struct TitleOutcome {
    pub title: String,
    pub failed: bool,
}

/// Mathematical image of an outcome.
pub ghost struct TitleOutcomeView {
    pub title: Seq<char>,
    pub failed: bool,
}

impl View for TitleOutcome {
    type V = TitleOutcomeView;

    open spec fn view(&self) -> TitleOutcomeView {
        TitleOutcomeView { title: self.title@, failed: self.failed }
    }
}

/// The images of a sequence of outcomes.
pub open spec fn spec_outcome_views(s: Seq<TitleOutcome>) -> Seq<TitleOutcomeView> {
    Seq::new(s.len(), |i: int| s[i]@)
}

/// The names of the titles that failed, in report order.
pub open spec fn spec_failed_titles(s: Seq<TitleOutcomeView>) -> Seq<Seq<char>>
    decreases s.len(),
{
    if s.len() == 0 {
        Seq::empty()
    } else {
        spec_failed_titles(s.drop_last()) + (if s.last().failed {
            seq![s.last().title]
        } else {
            Seq::empty()
        })
    }
}

/// A name stands in the failed list exactly when some outcome under that
/// name failed.
pub proof fn lemma_failed_titles_iff(s: Seq<TitleOutcomeView>, t: Seq<char>)
    ensures
        spec_failed_titles(s).contains(t) <==> exists|i: int|
            0 <= i < s.len() && s[i].failed && s[i].title == t,
    decreases s.len(),
{
    if s.len() > 0 {
        lemma_failed_titles_iff(s.drop_last(), t);
        let rec = spec_failed_titles(s.drop_last());
        let whole = spec_failed_titles(s);
        let n = s.len() as int;
        if s.last().failed {
            assert(whole =~= rec + seq![s.last().title]);
            if whole.contains(t) {
                let k = choose|k: int| 0 <= k < whole.len() && whole[k] == t;
                if k < rec.len() {
                    assert(rec[k] == t);
                    assert(rec.contains(t));
                    let i = choose|i: int| 0 <= i < n - 1 && s.drop_last()[i].failed && s.drop_last()[i].title == t;
                    assert(s[i].failed && s[i].title == t);
                } else {
                    assert(s[n - 1].failed && s[n - 1].title == t);
                }
            }
            if exists|i: int| 0 <= i < n && s[i].failed && s[i].title == t {
                let i = choose|i: int| 0 <= i < n && s[i].failed && s[i].title == t;
                if i < n - 1 {
                    assert(s.drop_last()[i].failed && s.drop_last()[i].title == t);
                    assert(rec.contains(t));
                    let k = choose|k: int| 0 <= k < rec.len() && rec[k] == t;
                    assert(whole[k] == t);
                    assert(whole.contains(t));
                } else {
                    assert(whole[rec.len() as int] == t);
                    assert(whole.contains(t));
                }
            }
        } else {
            assert(whole =~= rec);
            if whole.contains(t) {
                let i = choose|i: int| 0 <= i < n - 1 && s.drop_last()[i].failed && s.drop_last()[i].title == t;
                assert(s[i].failed && s[i].title == t);
            }
            if exists|i: int| 0 <= i < n && s[i].failed && s[i].title == t {
                let i = choose|i: int| 0 <= i < n && s[i].failed && s[i].title == t;
                assert(i < n - 1);
                assert(s.drop_last()[i].failed && s.drop_last()[i].title == t);
                assert(rec.contains(t));
            }
        }
    }
}

/// One title's failure never drags another in: the failed title is
/// reported, and a successful title — under a name no other outcome
/// carries — is not.
pub proof fn lemma_failure_isolated(s: Seq<TitleOutcomeView>, i: int, j: int)
    requires
        0 <= i < s.len(),
        0 <= j < s.len(),
        s[i].failed,
        !s[j].failed,
        forall|k: int| 0 <= k < s.len() && k != j ==> s[k].title != s[j].title,
    ensures
        spec_failed_titles(s).contains(s[i].title),
        !spec_failed_titles(s).contains(s[j].title),
{
    lemma_failed_titles_iff(s, s[i].title);
    lemma_failed_titles_iff(s, s[j].title);
}

/// Collects a run's summary: the titles whose workers reported failure,
/// in report order.  A failure lands its own title in the list and never
/// another's.
pub fn failed_titles(outcomes: &Vec<TitleOutcome>) -> (r: Vec<String>)
    ensures
        r.deep_view() == spec_failed_titles(spec_outcome_views(outcomes@)),
{
    let mut r: Vec<String> = Vec::new();
    let n = outcomes.len();
    let mut i: usize = 0;
    while i < n
        invariant
            i <= n,
            n == outcomes@.len(),
            r.deep_view() == spec_failed_titles(spec_outcome_views(outcomes@).take(i as int)),
        decreases n - i,
    {
        let ghost prefix = spec_outcome_views(outcomes@).take(i as int);
        let ghost step = spec_outcome_views(outcomes@).take(i + 1);
        let ghost before = r.deep_view();
        if outcomes[i].failed {
            r.push(outcomes[i].title.clone());
            proof {
                assert(r.deep_view() =~= before.push(outcomes@[i as int].title@));
            }
        }
        proof {
            assert(step.drop_last() =~= prefix);
            assert(step.last() == outcomes@[i as int]@);
            assert(r.deep_view() =~= spec_failed_titles(step));
        }
        i = i + 1;
    }
    proof {
        assert(spec_outcome_views(outcomes@).take(n as int) =~= spec_outcome_views(outcomes@));
    }
    r
}

} // verus!
