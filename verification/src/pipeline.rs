use crate::args::Args;
use crate::commands::{
    split_chapters, split_value, splits_as, ChapterDescriptor, ChapterValue, CommandOutcome,
};
use crate::error::{Artifact, Collaborator, PipelineError};
use crate::json::Json;
use crate::metadata::{covers_as, extract_cover};
use vstd::prelude::*;

verus! {

/// Where a run stands.
#[derive(Debug, Clone, Copy, PartialEq, Eq)]
pub enum Stage {
    /// Chapters are being extracted, one after the other.
    Splitting,
    /// The copy of the probe document is due.
    WritingMetadata,
    /// The merged tags are due.
    WritingTags,
    /// The cover is due.
    ExtractingCover,
    /// The segments are due for conversion.
    Converting,
    /// The run has ended well.
    Finished,
    /// The run has ended with a failure.
    Aborted,
}

/// What is to be done next.
#[derive(Debug, Clone, Copy, PartialEq, Eq)]
pub enum Action {
    /// Extract the chapter at `index`, counted from 0.
    ExtractSegment { index: usize },
    /// Write the copy of the probe document.
    WriteMetadata,
    /// Write the merged tags.
    WriteTags,
    /// Extract the cover from the stream with this index.
    ExtractCover { stream: i64 },
    /// Report that the source has no cover.
    SkipCover,
    /// Convert the segments that the output directory holds.
    ConvertSegments,
    /// Report success.
    Finish,
    /// Report the failure.
    Abort,
}

/// What a run works through.
pub struct Plan {
    /// The chapters to extract, or why there are none.
    pub chapters: Result<Seq<ChapterValue>, PipelineError>,
    /// The stream that holds the cover, if the source has one.
    pub cover: Option<i64>,
    /// Whether the segments stay in the container format.
    pub keep: bool,
}

/// How far a run has come.
pub struct Progress {
    pub stage: Stage,
    /// The number of chapters extracted so far.
    pub done: usize,
    /// Why the run was aborted.
    pub failure: Option<PipelineError>,
}

impl Plan {
    /// The number of chapters to extract.
    pub open spec fn chapter_count(self) -> nat {
        match self.chapters {
            Ok(chapters) => chapters.len(),
            Err(_) => 0,
        }
    }

    /// Where a run starts: with the first chapter, with the metadata where
    /// there is no chapter, or aborted where the chapters could not be read.
    pub open spec fn start(self) -> Progress {
        match self.chapters {
            Err(e) => Progress { stage: Stage::Aborted, done: 0, failure: Some(e) },
            Ok(chapters) => Progress {
                stage: if chapters.len() == 0 {
                    Stage::WritingMetadata
                } else {
                    Stage::Splitting
                },
                done: 0,
                failure: None,
            },
        }
    }

    /// What is to be done at `progress`.
    pub open spec fn action(self, progress: Progress) -> Action {
        match progress.stage {
            Stage::Splitting => Action::ExtractSegment { index: progress.done },
            Stage::WritingMetadata => Action::WriteMetadata,
            Stage::WritingTags => Action::WriteTags,
            Stage::ExtractingCover => match self.cover {
                Some(stream) => Action::ExtractCover { stream },
                None => Action::SkipCover,
            },
            Stage::Converting => Action::ConvertSegments,
            Stage::Finished => Action::Finish,
            Stage::Aborted => Action::Abort,
        }
    }

    /// Where a run stands after the action at `progress` ended with
    /// `outcome`.
    ///
    /// For the extraction of a chapter and of the cover, `outcome` is how
    /// the tool ended. For a file to write, it is `Succeeded` where the file
    /// was written. For the conversion, it is what
    /// [`settle_conversion`](crate::commands::settle_conversion) gives.
    ///
    /// A chapter that cannot be extracted aborts the run, and so does a file
    /// that cannot be written. The cover is extracted as far as it can be:
    /// no outcome of its extraction aborts the run. The segments are
    /// converted unless they are to be kept.
    pub open spec fn step(self, progress: Progress, outcome: CommandOutcome) -> Progress {
        match progress.stage {
            Stage::Splitting => match outcome {
                CommandOutcome::Succeeded => Progress {
                    stage: if progress.done + 1 == self.chapter_count() {
                        Stage::WritingMetadata
                    } else {
                        Stage::Splitting
                    },
                    done: (progress.done + 1) as usize,
                    failure: progress.failure,
                },
                CommandOutcome::Failed => aborted(
                    progress,
                    PipelineError::SegmentationFailure { ordinal: (progress.done + 1) as usize },
                ),
                CommandOutcome::NotStarted => aborted(
                    progress,
                    PipelineError::InvocationFailure(Collaborator::Segmentation),
                ),
            },
            Stage::WritingMetadata => match outcome {
                CommandOutcome::Succeeded => at_stage(progress, Stage::WritingTags),
                _ => aborted(progress, PipelineError::IoFailure(Artifact::MetadataJson)),
            },
            Stage::WritingTags => match outcome {
                CommandOutcome::Succeeded => at_stage(progress, Stage::ExtractingCover),
                _ => aborted(progress, PipelineError::IoFailure(Artifact::TagsYaml)),
            },
            Stage::ExtractingCover => if self.keep {
                at_stage(progress, Stage::Finished)
            } else {
                at_stage(progress, Stage::Converting)
            },
            Stage::Converting => match outcome {
                CommandOutcome::Succeeded => at_stage(progress, Stage::Finished),
                _ => aborted(progress, PipelineError::IoFailure(Artifact::OutputDirectory)),
            },
            Stage::Finished => progress,
            Stage::Aborted => progress,
        }
    }

    /// Where a run stands after the actions from `progress` on ended with
    /// `outcomes`, in this order.
    pub open spec fn run(self, progress: Progress, outcomes: Seq<CommandOutcome>) -> Progress
        decreases outcomes.len(),
    {
        if outcomes.len() == 0 {
            progress
        } else {
            self.step(self.run(progress, outcomes.drop_last()), outcomes.last())
        }
    }

    /// What holds of `progress` at every point of a run.
    pub open spec fn admits(self, progress: Progress) -> bool {
        &&& self.chapter_count() <= usize::MAX
        &&& progress.done <= self.chapter_count()
        &&& progress.stage == Stage::Splitting ==> progress.done < self.chapter_count()
        &&& progress.stage == Stage::Aborted <==> progress.failure is Some
        &&& progress.stage != Stage::Splitting && progress.stage != Stage::Aborted
            ==> progress.done == self.chapter_count()
        &&& self.keep ==> progress.stage != Stage::Converting
    }
}

/// `progress` at another stage.
pub open spec fn at_stage(progress: Progress, stage: Stage) -> Progress {
    Progress { stage, done: progress.done, failure: progress.failure }
}

/// `progress` aborted with `failure`.
pub open spec fn aborted(progress: Progress, failure: PipelineError) -> Progress {
    Progress { stage: Stage::Aborted, done: progress.done, failure: Some(failure) }
}

/// A run of the pipeline: what it works through and how far it has come.
///
/// The caller carries out the action that [`Pipeline::next_action`] names
/// and hands its outcome to [`Pipeline::advance`], until the action is
/// `Finish` or `Abort`.
#[derive(Debug)]
pub struct Pipeline {
    chapters: Result<Vec<ChapterDescriptor>, PipelineError>,
    cover: Option<i64>,
    keep: bool,
    stage: Stage,
    done: usize,
    failure: Option<PipelineError>,
}

/// The mathematical value of a [`Pipeline`].
pub struct PipelineValue {
    pub plan: Plan,
    pub progress: Progress,
}

impl View for Pipeline {
    type V = PipelineValue;

    closed spec fn view(&self) -> PipelineValue {
        PipelineValue {
            plan: Plan { chapters: split_value(self.chapters), cover: self.cover, keep: self.keep },
            progress: Progress { stage: self.stage, done: self.done, failure: self.failure },
        }
    }
}

impl Pipeline {
    #[verifier::type_invariant]
    spec fn next_chapter_exists(self) -> bool {
        &&& self.done <= self@.plan.chapter_count()
        &&& self.stage == Stage::Splitting ==> self.done < self@.plan.chapter_count()
    }

    /// Plans a run on the probe document `json` with the options `args`.
    pub fn new(args: &Args, json: &Json) -> (pipeline: Pipeline)
        ensures
            splits_as(json@, args.sanitize, pipeline@.plan.chapters),
            covers_as(json@, pipeline@.plan.cover),
            pipeline@.plan.keep == args.no_convert,
            pipeline@.progress == pipeline@.plan.start(),
    {
        let chapters = split_chapters(args, json);
        let cover = extract_cover(json);
        let (stage, failure) = match &chapters {
            Ok(descriptors) => if descriptors.len() == 0 {
                (Stage::WritingMetadata, None)
            } else {
                (Stage::Splitting, None)
            },
            Err(e) => (Stage::Aborted, Some(e.duplicate())),
        };
        Pipeline { chapters, cover, keep: args.no_convert, stage, done: 0, failure }
    }

    /// What is to be done next.
    pub fn next_action(&self) -> (action: Action)
        ensures
            action == self@.plan.action(self@.progress),
            self@.plan.chapters matches Ok(chapters) ==> (action matches Action::ExtractSegment {
                index,
            } ==> index < chapters.len()),
    {
        proof {
            use_type_invariant(self);
        }
        match self.stage {
            Stage::Splitting => Action::ExtractSegment { index: self.done },
            Stage::WritingMetadata => Action::WriteMetadata,
            Stage::WritingTags => Action::WriteTags,
            Stage::ExtractingCover => match self.cover {
                Some(stream) => Action::ExtractCover { stream },
                None => Action::SkipCover,
            },
            Stage::Converting => Action::ConvertSegments,
            Stage::Finished => Action::Finish,
            Stage::Aborted => Action::Abort,
        }
    }

    /// Records that the action named last has ended with `outcome`.
    pub fn advance(&mut self, outcome: CommandOutcome)
        ensures
            final(self)@.plan == old(self)@.plan,
            final(self)@.progress == old(self)@.plan.step(old(self)@.progress, outcome),
    {
        proof {
            use_type_invariant(&*self);
        }
        let count: usize = match &self.chapters {
            Ok(descriptors) => descriptors.len(),
            Err(_) => 0,
        };
        match self.stage {
            Stage::Splitting => match outcome {
                CommandOutcome::Succeeded => {
                    if self.done + 1 == count {
                        self.stage = Stage::WritingMetadata;
                    }
                    self.done = self.done + 1;
                },
                CommandOutcome::Failed => {
                    self.failure = Some(PipelineError::SegmentationFailure { ordinal: self.done + 1 });
                    self.stage = Stage::Aborted;
                },
                CommandOutcome::NotStarted => {
                    self.failure = Some(
                        PipelineError::InvocationFailure(Collaborator::Segmentation),
                    );
                    self.stage = Stage::Aborted;
                },
            },
            Stage::WritingMetadata => match outcome {
                CommandOutcome::Succeeded => {
                    self.stage = Stage::WritingTags;
                },
                _ => {
                    self.failure = Some(PipelineError::IoFailure(Artifact::MetadataJson));
                    self.stage = Stage::Aborted;
                },
            },
            Stage::WritingTags => match outcome {
                CommandOutcome::Succeeded => {
                    self.stage = Stage::ExtractingCover;
                },
                _ => {
                    self.failure = Some(PipelineError::IoFailure(Artifact::TagsYaml));
                    self.stage = Stage::Aborted;
                },
            },
            Stage::ExtractingCover => {
                if self.keep {
                    self.stage = Stage::Finished;
                } else {
                    self.stage = Stage::Converting;
                }
            },
            Stage::Converting => match outcome {
                CommandOutcome::Succeeded => {
                    self.stage = Stage::Finished;
                },
                _ => {
                    self.failure = Some(PipelineError::IoFailure(Artifact::OutputDirectory));
                    self.stage = Stage::Aborted;
                },
            },
            Stage::Finished => {},
            Stage::Aborted => {},
        }
    }

    /// Where the run stands.
    pub fn stage(&self) -> (stage: Stage)
        ensures
            stage == self@.progress.stage,
    {
        self.stage
    }

    /// The number of chapters extracted so far.
    pub fn segments_done(&self) -> (done: usize)
        ensures
            done == self@.progress.done,
    {
        self.done
    }

    /// Why the run was aborted, if it was.
    pub fn failure(&self) -> (failure: Option<&PipelineError>)
        ensures
            match failure {
                Some(e) => self@.progress.failure == Some(*e),
                None => self@.progress.failure is None,
            },
    {
        match &self.failure {
            Some(e) => Some(e),
            None => None,
        }
    }

    /// The chapter that `ExtractSegment { index }` asks for.
    pub fn chapter(&self, index: usize) -> (chapter: Option<&ChapterDescriptor>)
        ensures
            match chapter {
                Some(descriptor) => {
                    &&& self@.plan.chapters matches Ok(chapters)
                    &&& index < chapters.len()
                    &&& descriptor@ == chapters[index as int]
                },
                None => index >= self@.plan.chapter_count(),
            },
    {
        match &self.chapters {
            Ok(descriptors) => if index < descriptors.len() {
                Some(&descriptors[index])
            } else {
                None
            },
            Err(_) => None,
        }
    }

    /// Whether the segments stay in the container format.
    pub fn keeps_segments(&self) -> (keep: bool)
        ensures
            keep == self@.plan.keep,
    {
        self.keep
    }
}

/// A run starts in a state that the plan admits.
pub proof fn lemma_start_is_admitted(plan: Plan)
    requires
        plan.chapter_count() <= usize::MAX,
    ensures
        plan.admits(plan.start()),
{
}

/// Every step leads from a state that the plan admits to another one.
pub proof fn lemma_step_is_admitted(plan: Plan, progress: Progress, outcome: CommandOutcome)
    requires
        plan.admits(progress),
    ensures
        plan.admits(plan.step(progress, outcome)),
{
}

/// Whatever the outcomes, a run stays within the states that the plan
/// admits: it has extracted no more chapters than there are, it has a
/// failure exactly when it is aborted, and past the extraction of chapters
/// every chapter has been extracted.
pub proof fn lemma_run_is_admitted(plan: Plan, outcomes: Seq<CommandOutcome>)
    requires
        plan.chapter_count() <= usize::MAX,
    ensures
        plan.admits(plan.run(plan.start(), outcomes)),
    decreases outcomes.len(),
{
    if outcomes.len() == 0 {
        lemma_start_is_admitted(plan);
    } else {
        lemma_run_is_admitted(plan, outcomes.drop_last());
        lemma_step_is_admitted(plan, plan.run(plan.start(), outcomes.drop_last()), outcomes.last());
    }
}

/// A run that has finished has extracted every chapter and has no failure.
pub proof fn lemma_finished_run_is_complete(plan: Plan, outcomes: Seq<CommandOutcome>)
    requires
        plan.chapter_count() <= usize::MAX,
        plan.run(plan.start(), outcomes).stage == Stage::Finished,
    ensures
        plan.run(plan.start(), outcomes).done == plan.chapter_count(),
        plan.run(plan.start(), outcomes).failure is None,
        plan.chapters is Ok,
{
    lemma_run_is_admitted(plan, outcomes);
    lemma_failure_is_kept(plan, plan.start(), outcomes);
}

/// An aborted run stays as it is, whatever is reported to it.
pub proof fn lemma_aborted_run_stays(plan: Plan, progress: Progress, outcomes: Seq<CommandOutcome>)
    requires
        progress.stage == Stage::Aborted,
    ensures
        plan.run(progress, outcomes) == progress,
    decreases outcomes.len(),
{
    if outcomes.len() > 0 {
        lemma_aborted_run_stays(plan, progress, outcomes.drop_last());
    }
}

/// A run never loses a failure.
pub proof fn lemma_failure_is_kept(plan: Plan, progress: Progress, outcomes: Seq<CommandOutcome>)
    requires
        progress.stage == Stage::Aborted <==> progress.failure is Some,
    ensures
        progress.failure is Some ==> plan.run(progress, outcomes) == progress,
        plan.run(progress, outcomes).stage == Stage::Aborted <==> plan.run(
            progress,
            outcomes,
        ).failure is Some,
    decreases outcomes.len(),
{
    if outcomes.len() > 0 {
        lemma_failure_is_kept(plan, progress, outcomes.drop_last());
    }
}

/// Chapters are extracted in the order of their ordinals: the chapter that
/// is asked for is the one after those extracted so far, and only its
/// success counts one chapter more.
pub proof fn lemma_chapters_in_order(plan: Plan, progress: Progress, outcome: CommandOutcome)
    requires
        plan.admits(progress),
    ensures
        plan.action(progress) matches Action::ExtractSegment { index } ==> index == progress.done
            && index < plan.chapter_count(),
        plan.step(progress, outcome).done == if progress.stage == Stage::Splitting && outcome
            == CommandOutcome::Succeeded {
            progress.done + 1
        } else {
            progress.done as int
        },
{
}

proof fn lemma_run_of_successes(plan: Plan, outcomes: Seq<CommandOutcome>)
    requires
        plan.chapters is Ok,
        plan.chapter_count() <= usize::MAX,
        outcomes.len() < plan.chapter_count(),
        forall|i: int| 0 <= i < outcomes.len() ==> outcomes[i] == CommandOutcome::Succeeded,
    ensures
        plan.run(plan.start(), outcomes) == (Progress {
            stage: Stage::Splitting,
            done: outcomes.len() as usize,
            failure: None,
        }),
    decreases outcomes.len(),
{
    if outcomes.len() > 0 {
        let shorter = outcomes.drop_last();
        assert forall|i: int| 0 <= i < shorter.len() implies shorter[i]
            == CommandOutcome::Succeeded by {
            assert(shorter[i] == outcomes[i]);
        }
        lemma_run_of_successes(plan, shorter);
        assert(outcomes.last() == outcomes[outcomes.len() - 1]);
    }
}

/// Where the extraction of chapter `k` fails after the chapters before it
/// succeeded, the run is aborted with `SegmentationFailure` for `k`, with
/// `k - 1` chapters extracted, whatever is reported afterwards. Up to the
/// failure the run asks for the chapters in order and for nothing else, and
/// from the failure on it asks for nothing at all: no chapter from `k` on is
/// extracted, nothing is written, and no segment is converted.
pub proof fn lemma_failed_chapter_stops_run(plan: Plan, outcomes: Seq<CommandOutcome>, k: int)
    requires
        plan.chapters is Ok,
        plan.chapter_count() <= usize::MAX,
        1 <= k <= plan.chapter_count(),
        k <= outcomes.len(),
        forall|i: int| 0 <= i < k - 1 ==> outcomes[i] == CommandOutcome::Succeeded,
        outcomes[k - 1] == CommandOutcome::Failed,
    ensures
        plan.run(plan.start(), outcomes) == (Progress {
            stage: Stage::Aborted,
            done: (k - 1) as usize,
            failure: Some(PipelineError::SegmentationFailure { ordinal: k as usize }),
        }),
        forall|m: int|
            0 <= m <= outcomes.len() ==> #[trigger] plan.action(
                plan.run(plan.start(), outcomes.take(m)),
            ) == if m < k {
                Action::ExtractSegment { index: m as usize }
            } else {
                Action::Abort
            },
{
    let end = Progress {
        stage: Stage::Aborted,
        done: (k - 1) as usize,
        failure: Some(PipelineError::SegmentationFailure { ordinal: k as usize }),
    };
    let upto = outcomes.take(k);
    let before = upto.drop_last();
    assert forall|i: int| 0 <= i < before.len() implies before[i]
        == CommandOutcome::Succeeded by {
        assert(before[i] == outcomes[i]);
    }
    lemma_run_of_successes(plan, before);
    assert(upto.last() == outcomes[k - 1]);
    assert(plan.run(plan.start(), upto) == end);
    assert forall|m: int| 0 <= m <= outcomes.len() implies #[trigger] plan.action(
        plan.run(plan.start(), outcomes.take(m)),
    ) == if m < k {
        Action::ExtractSegment { index: m as usize }
    } else {
        Action::Abort
    } by {
        let prefix = outcomes.take(m);
        if m < k {
            assert forall|i: int| 0 <= i < prefix.len() implies prefix[i]
                == CommandOutcome::Succeeded by {
                assert(prefix[i] == outcomes[i]);
            }
            lemma_run_of_successes(plan, prefix);
        } else {
            lemma_run_from_prefix(plan, prefix, k);
            assert(prefix.take(k) =~= upto);
            lemma_aborted_run_stays(plan, end, prefix.skip(k));
        }
    }
    assert(outcomes.take(outcomes.len() as int) =~= outcomes);
    assert(plan.action(plan.run(plan.start(), outcomes.take(outcomes.len() as int)))
        == Action::Abort);
    lemma_run_from_prefix(plan, outcomes, k);
    lemma_aborted_run_stays(plan, end, outcomes.skip(k));
}

/// A run over `outcomes` is the run over what follows the first `at` of
/// them, from where the run over those first ones ends.
pub proof fn lemma_run_from_prefix(plan: Plan, outcomes: Seq<CommandOutcome>, at: int)
    requires
        0 <= at <= outcomes.len(),
    ensures
        plan.run(plan.start(), outcomes) == plan.run(
            plan.run(plan.start(), outcomes.take(at)),
            outcomes.skip(at),
        ),
    decreases outcomes.len() - at,
{
    if at == outcomes.len() {
        assert(outcomes.take(at) =~= outcomes);
        assert(outcomes.skip(at) =~= Seq::empty());
    } else {
        let shorter = outcomes.drop_last();
        lemma_run_from_prefix(plan, shorter, at);
        assert(shorter.take(at) =~= outcomes.take(at));
        assert(outcomes.skip(at).drop_last() =~= shorter.skip(at));
        assert(outcomes.skip(at).last() == outcomes.last());
    }
}

/// Where the segments are to be kept, no run ever asks for their
/// conversion.
pub proof fn lemma_kept_segments_are_not_converted(plan: Plan, outcomes: Seq<CommandOutcome>)
    requires
        plan.chapter_count() <= usize::MAX,
        plan.keep,
    ensures
        plan.action(plan.run(plan.start(), outcomes)) != Action::ConvertSegments,
{
    lemma_run_is_admitted(plan, outcomes);
}

/// The cover is extracted as far as it can be: a source without a cover is
/// passed over, and a cover whose extraction fails, or whose tool cannot be
/// started, does not abort the run.
pub proof fn lemma_cover_is_best_effort(plan: Plan, progress: Progress, outcome: CommandOutcome)
    requires
        progress.stage == Stage::ExtractingCover,
    ensures
        plan.cover is None ==> plan.action(progress) == Action::SkipCover,
        plan.step(progress, outcome).stage == if plan.keep {
            Stage::Finished
        } else {
            Stage::Converting
        },
        plan.step(progress, outcome).failure == progress.failure,
{
}

} // verus!
