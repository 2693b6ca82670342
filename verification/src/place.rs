//! Removing one place of a session from disk.
//!
//! The disk is worked on from outside: `action` says what to do next, and `advance` is told what came
//! of it.
use crate::delete::{Removal, RemovalView, Target};
use vstd::prelude::*;

verus! {

/// How far a removal has come.
#[derive(Debug)]
pub enum PlaceStage {
    /// It has to be seen whether there is anything, and how large it is.
    Probe,
    /// What is there has this size, and has to be removed.
    Remove(u64),
    /// This came of it.
    Done(Removal),
}

/// What a `PlaceStage` holds.
pub enum PlaceStageView {
    Probe,
    Remove(u64),
    Done(RemovalView),
}

impl DeepView for PlaceStage {
    type V = PlaceStageView;

    open spec fn deep_view(&self) -> PlaceStageView {
        match self {
            PlaceStage::Probe => PlaceStageView::Probe,
            PlaceStage::Remove(size) => PlaceStageView::Remove(*size),
            PlaceStage::Done(r) => PlaceStageView::Done(r.deep_view()),
        }
    }
}

/// The removal of one place from disk.
#[derive(Debug)]
pub struct PlaceRemoval {
    /// Whether the place is a directory; else it is a file.
    pub is_dir: bool,
    pub stage: PlaceStage,
}

/// What a `PlaceRemoval` holds.
#[verifier::ext_equal]
pub struct PlaceRemovalView {
    pub is_dir: bool,
    pub stage: PlaceStageView,
}

impl DeepView for PlaceRemoval {
    type V = PlaceRemovalView;

    open spec fn deep_view(&self) -> PlaceRemovalView {
        PlaceRemovalView { is_dir: self.is_dir, stage: self.stage.deep_view() }
    }
}

/// What is to be done next.
#[derive(Debug)]
pub enum PlaceAction {
    /// Report the size of the place, if it is there: for a directory, of all that is below it.
    Probe { is_dir: bool },
    /// Remove the place: a directory with all that is in it, or a file.
    Remove { is_dir: bool },
    /// Nothing more: this came of it.
    Finish(Removal),
}

/// What a `PlaceAction` holds.
pub enum PlaceActionView {
    Probe { is_dir: bool },
    Remove { is_dir: bool },
    Finish(RemovalView),
}

impl DeepView for PlaceAction {
    type V = PlaceActionView;

    open spec fn deep_view(&self) -> PlaceActionView {
        match self {
            PlaceAction::Probe { is_dir } => PlaceActionView::Probe { is_dir: *is_dir },
            PlaceAction::Remove { is_dir } => PlaceActionView::Remove { is_dir: *is_dir },
            PlaceAction::Finish(r) => PlaceActionView::Finish(r.deep_view()),
        }
    }
}

/// What came of an action.
#[derive(Debug)]
pub enum PlaceEvent {
    /// The place has this size; `None` if it is not there.
    Probed(Option<u64>),
    /// The place is removed.
    Removed,
    /// The place could not be removed, or not wholly, and why.
    Failed(String),
}

/// What a `PlaceEvent` holds.
pub enum PlaceEventView {
    Probed(Option<u64>),
    Removed,
    Failed(Seq<char>),
}

impl DeepView for PlaceEvent {
    type V = PlaceEventView;

    open spec fn deep_view(&self) -> PlaceEventView {
        match self {
            PlaceEvent::Probed(found) => PlaceEventView::Probed(*found),
            PlaceEvent::Removed => PlaceEventView::Removed,
            PlaceEvent::Failed(e) => PlaceEventView::Failed(e@),
        }
    }
}

impl PlaceRemovalView {
    /// A removal at its beginning.
    pub open spec fn start(is_dir: bool) -> PlaceRemovalView {
        PlaceRemovalView { is_dir, stage: PlaceStageView::Probe }
    }

    /// What is to be done next.
    pub open spec fn action(self) -> PlaceActionView {
        match self.stage {
            PlaceStageView::Probe => PlaceActionView::Probe { is_dir: self.is_dir },
            PlaceStageView::Remove(_) => PlaceActionView::Remove { is_dir: self.is_dir },
            PlaceStageView::Done(r) => PlaceActionView::Finish(r),
        }
    }

    /// Whether an event answers what is to be done.
    pub open spec fn expects(self, event: PlaceEventView) -> bool {
        match event {
            PlaceEventView::Probed(_) => self.stage is Probe,
            PlaceEventView::Removed => self.stage is Remove,
            PlaceEventView::Failed(_) => self.stage is Remove,
        }
    }

    /// The removal after an event that it expects.
    pub open spec fn after(self, event: PlaceEventView) -> PlaceRemovalView {
        PlaceRemovalView {
            stage: match event {
                PlaceEventView::Probed(None) => PlaceStageView::Done(RemovalView::Absent),
                PlaceEventView::Probed(Some(size)) => PlaceStageView::Remove(size),
                PlaceEventView::Removed => PlaceStageView::Done(
                    RemovalView::Removed(self.stage->Remove_0),
                ),
                PlaceEventView::Failed(e) => PlaceStageView::Done(
                    RemovalView::Failed(self.stage->Remove_0, e),
                ),
            },
            ..self
        }
    }
}

/// Begins to remove a place from disk.
pub fn remove_place(place: &Target) -> (r: PlaceRemoval)
    ensures
        r.deep_view() == PlaceRemovalView::start(place.is_dir),
{
    PlaceRemoval { is_dir: place.is_dir, stage: PlaceStage::Probe }
}

impl PlaceRemoval {
    /// What is to be done next.
    pub fn action(&self) -> (r: PlaceAction)
        ensures
            r.deep_view() == self.deep_view().action(),
    {
        match &self.stage {
            PlaceStage::Probe => PlaceAction::Probe { is_dir: self.is_dir },
            PlaceStage::Remove(_) => PlaceAction::Remove { is_dir: self.is_dir },
            PlaceStage::Done(r) => PlaceAction::Finish(r.copy()),
        }
    }

    /// Whether an event answers what is to be done.
    pub fn can_take(&self, event: &PlaceEvent) -> (r: bool)
        ensures
            r == self.deep_view().expects(event.deep_view()),
    {
        match (&self.stage, event) {
            (PlaceStage::Probe, PlaceEvent::Probed(_)) => true,
            (PlaceStage::Remove(_), PlaceEvent::Removed) => true,
            (PlaceStage::Remove(_), PlaceEvent::Failed(_)) => true,
            _ => false,
        }
    }

    /// Goes on after an action.
    pub fn advance(&mut self, event: PlaceEvent)
        requires
            old(self).deep_view().expects(event.deep_view()),
        ensures
            final(self).deep_view() == old(self).deep_view().after(event.deep_view()),
    {
        let size: u64 = match &self.stage {
            PlaceStage::Remove(size) => *size,
            _ => 0,
        };
        self.stage = match event {
            PlaceEvent::Probed(None) => PlaceStage::Done(Removal::Absent),
            PlaceEvent::Probed(Some(found)) => PlaceStage::Remove(found),
            PlaceEvent::Removed => PlaceStage::Done(Removal::Removed(size)),
            PlaceEvent::Failed(e) => PlaceStage::Done(Removal::Failed(size, e)),
        };
    }
}

/// The removal after some events.
pub open spec fn after_all(p: PlaceRemovalView, events: Seq<PlaceEventView>) -> PlaceRemovalView
    decreases events.len(),
{
    if events.len() == 0 {
        p
    } else {
        after_all(p, events.drop_last()).after(events.last())
    }
}

/// Whether each of some events is expected when it comes.
pub open spec fn all_expected(p: PlaceRemovalView, events: Seq<PlaceEventView>) -> bool
    decreases events.len(),
{
    events.len() == 0 || (all_expected(p, events.drop_last()) && after_all(
        p,
        events.drop_last(),
    ).expects(events.last()))
}

/// However a removal goes, nothing is removed before it was seen to be there and measured; a place
/// where there is nothing is left alone; and what is told at the end is the size that was measured,
/// and whether the removal succeeded.
pub proof fn law_places_are_measured_before_removal(is_dir: bool, events: Seq<PlaceEventView>)
    requires
        all_expected(PlaceRemovalView::start(is_dir), events),
    ensures
        match after_all(PlaceRemovalView::start(is_dir), events).action() {
            PlaceActionView::Probe { is_dir: d } => d == is_dir && events.len() == 0,
            PlaceActionView::Remove { is_dir: d } => d == is_dir && events.len() == 1 && events[0]
                matches PlaceEventView::Probed(Some(_)),
            PlaceActionView::Finish(RemovalView::Absent) => events == seq![
                PlaceEventView::Probed(None),
            ],
            PlaceActionView::Finish(RemovalView::Removed(n)) => events == seq![
                PlaceEventView::Probed(Some(n)),
                PlaceEventView::Removed,
            ],
            PlaceActionView::Finish(RemovalView::Failed(n, e)) => events == seq![
                PlaceEventView::Probed(Some(n)),
                PlaceEventView::Failed(e),
            ],
        },
{
    lemma_stage_so_far(is_dir, events);
}

proof fn lemma_stage_so_far(is_dir: bool, events: Seq<PlaceEventView>)
    requires
        all_expected(PlaceRemovalView::start(is_dir), events),
    ensures
        ({
            let p = after_all(PlaceRemovalView::start(is_dir), events);
            &&& p.is_dir == is_dir
            &&& match p.stage {
                PlaceStageView::Probe => events.len() == 0,
                PlaceStageView::Remove(n) => events == seq![PlaceEventView::Probed(Some(n))],
                PlaceStageView::Done(RemovalView::Absent) => events == seq![
                    PlaceEventView::Probed(None),
                ],
                PlaceStageView::Done(RemovalView::Removed(n)) => events == seq![
                    PlaceEventView::Probed(Some(n)),
                    PlaceEventView::Removed,
                ],
                PlaceStageView::Done(RemovalView::Failed(n, e)) => events == seq![
                    PlaceEventView::Probed(Some(n)),
                    PlaceEventView::Failed(e),
                ],
            }
        }),
    decreases events.len(),
{
    if events.len() > 0 {
        lemma_stage_so_far(is_dir, events.drop_last());
        assert(events.drop_last().push(events.last()) =~= events);
        let before = after_all(PlaceRemovalView::start(is_dir), events.drop_last());
        match before.stage {
            PlaceStageView::Probe => {
                assert(events =~= seq![events.last()]);
            },
            PlaceStageView::Remove(n) => {
                assert(events =~= seq![PlaceEventView::Probed(Some(n)), events.last()]);
            },
            PlaceStageView::Done(_) => {},
        }
    }
}

/// Every answer to what is to be done is taken, and no other is.
pub proof fn law_removal_takes_every_answer(
    p: PlaceRemovalView,
    found: Option<u64>,
    e: Seq<char>,
    is_dir: bool,
)
    ensures
        p.action() is Probe == p.expects(PlaceEventView::Probed(found)),
        p.action() is Remove == p.expects(PlaceEventView::Removed),
        p.action() is Remove == p.expects(PlaceEventView::Failed(e)),
        PlaceRemovalView::start(is_dir).action() == (PlaceActionView::Probe { is_dir }),
{
}

} // verus!
