//! The decisions of one run of the tool, as a state machine.
//!
//! A run lists the holding folder, copies the held object to the backup
//! folder, downloads it, stores it locally, decrypts it, and once it is
//! decrypted deletes it from the holding folder (the backup copy stays) and
//! then deletes the local encrypted file. The caller performs each action and
//! reports what came of it as the next event.
use crate::decrypt::{DecryptOutcome, KeyError};
use vstd::prelude::*;

verus! {

/// The status code of a successful listing or download.
pub const STATUS_CODE: u32 = 200;

/// The status code of a successful delete.
pub const STATUS_CODE_DEL: u32 = 204;

/// One page of the listing of the holding folder, as far as the tool reads
/// it.
#[derive(Debug)]
pub struct ListingPage {
    /// The bucket name that the page reports.
    pub name: String,
    /// The keys of the objects on the page, in order.
    pub keys: Vec<String>,
    /// The status code of the request that gave the page.
    pub code: u32,
}

/// Whether a page of the listing is usable: it came with `STATUS_CODE` and
/// holds at least two objects. The tool stops on any other page.
pub open spec fn page_usable(page: ListingPage) -> bool {
    page.code == STATUS_CODE && page.keys@.len() >= 2
}

/// The key of the second object of each page of the listing of the holding
/// folder. Every page must be usable; the caller stops before the first
/// page that is not.
pub fn list_objects_in_holding(pages: &Vec<ListingPage>) -> (r: Vec<String>)
    requires
        forall|i: int| 0 <= i < pages@.len() ==> page_usable(#[trigger] pages@[i]),
    ensures
        r@.len() == pages@.len(),
        forall|i: int| 0 <= i < pages@.len() ==> (#[trigger] r@[i])@ == pages@[i].keys@[1]@,
{
    let mut second_keys: Vec<String> = Vec::new();
    let mut i: usize = 0;
    while i < pages.len()
        invariant
            i <= pages@.len(),
            forall|k: int| 0 <= k < pages@.len() ==> page_usable(#[trigger] pages@[k]),
            second_keys@.len() == i,
            forall|k: int| 0 <= k < i ==> (#[trigger] second_keys@[k])@ == pages@[k].keys@[1]@,
        decreases pages@.len() - i,
    {
        assert(page_usable(pages@[i as int]));
        second_keys.push(pages[i].keys[1].clone());
        i = i + 1;
    }
    second_keys
}

/// How a run that did not stop ends.
#[derive(Clone, Copy, Debug, PartialEq, Eq, Structural)]
pub enum Outcome {
    /// The file was decrypted and removed from the holding folder and from
    /// the local download folder.
    Completed,
    /// The file could not be decrypted; it stays in the holding folder.
    DecryptionFailed,
}

/// Why a run stops.
#[derive(Clone, Copy, Debug, PartialEq, Eq, Structural)]
pub enum Fault {
    /// The listing request failed.
    ListingFailed,
    /// The copy to the backup folder failed.
    CopyFailed,
    /// The download request failed.
    FetchFailed,
    /// The download came with another status than `STATUS_CODE`.
    FetchStatus(u32),
    /// The downloaded file could not be stored locally.
    StoreFailed,
    /// The delete request failed.
    DeleteFailed,
    /// The delete came with another status than `STATUS_CODE_DEL`.
    DeleteStatus(u32),
}

/// Where a run is: the step it waits on.
#[derive(Clone, Copy, Debug, PartialEq, Eq, Structural)]
pub enum Stage {
    Start,
    Listing,
    Copying,
    Fetching,
    Storing,
    Decrypting,
    DeletingHolding,
    DeletingLocal,
    Finished(Outcome),
    Aborted(Fault),
}

/// What the caller reports.
#[derive(Clone, Copy, Debug, PartialEq, Eq, Structural)]
pub enum Event {
    /// The run begins.
    Started,
    /// The holding folder was listed and every page was usable.
    Listed,
    /// The listing request failed.
    ListingFailed,
    /// The copy to the backup folder succeeded or not.
    Copied(bool),
    /// The download answered with this status, or failed.
    Fetched(Option<u32>),
    /// The downloaded file was stored locally or not.
    Stored(bool),
    /// The stored file was decrypted (its sealed box opened) or not.
    Decrypted(bool),
    /// The delete in the holding folder answered with this status, or failed.
    HoldingDeleted(Option<u32>),
    /// The local encrypted file was deleted or not.
    LocalDeleted(bool),
}

/// What the caller is to do next.
#[derive(Clone, Copy, Debug, PartialEq, Eq, Structural)]
pub enum Action {
    ListHolding,
    CopyToBackup,
    FetchEncrypted,
    StoreEncrypted,
    Decrypt,
    DeleteHolding,
    DeleteLocal,
    Finish(Outcome),
    Abort(Fault),
}

/// The next stage and action on `event` in `stage`; an event that the stage
/// does not wait on changes nothing.
pub open spec fn next(stage: Stage, event: Event) -> (Stage, Option<Action>) {
    match (stage, event) {
        (Stage::Start, Event::Started) => (Stage::Listing, Some(Action::ListHolding)),
        (Stage::Listing, Event::Listed) => (Stage::Copying, Some(Action::CopyToBackup)),
        (Stage::Listing, Event::ListingFailed) => (Stage::Aborted(Fault::ListingFailed), Some(Action::Abort(Fault::ListingFailed))),
        (Stage::Copying, Event::Copied(ok)) => if ok {
            (Stage::Fetching, Some(Action::FetchEncrypted))
        } else {
            (Stage::Aborted(Fault::CopyFailed), Some(Action::Abort(Fault::CopyFailed)))
        },
        (Stage::Fetching, Event::Fetched(answer)) => match answer {
            None => (Stage::Aborted(Fault::FetchFailed), Some(Action::Abort(Fault::FetchFailed))),
            Some(code) => if code == STATUS_CODE {
                (Stage::Storing, Some(Action::StoreEncrypted))
            } else {
                (Stage::Aborted(Fault::FetchStatus(code)), Some(Action::Abort(Fault::FetchStatus(code))))
            },
        },
        (Stage::Storing, Event::Stored(ok)) => if ok {
            (Stage::Decrypting, Some(Action::Decrypt))
        } else {
            (Stage::Aborted(Fault::StoreFailed), Some(Action::Abort(Fault::StoreFailed)))
        },
        (Stage::Decrypting, Event::Decrypted(ok)) => if ok {
            (Stage::DeletingHolding, Some(Action::DeleteHolding))
        } else {
            (Stage::Finished(Outcome::DecryptionFailed), Some(Action::Finish(Outcome::DecryptionFailed)))
        },
        (Stage::DeletingHolding, Event::HoldingDeleted(answer)) => match answer {
            None => (Stage::Aborted(Fault::DeleteFailed), Some(Action::Abort(Fault::DeleteFailed))),
            Some(code) => if code == STATUS_CODE_DEL {
                (Stage::DeletingLocal, Some(Action::DeleteLocal))
            } else {
                (Stage::Aborted(Fault::DeleteStatus(code)), Some(Action::Abort(Fault::DeleteStatus(code))))
            },
        },
        (Stage::DeletingLocal, Event::LocalDeleted(_)) => (Stage::Finished(Outcome::Completed), Some(Action::Finish(Outcome::Completed))),
        _ => (stage, None),
    }
}

/// Decides the next stage and action on `event` in `stage`.
pub fn step(stage: Stage, event: Event) -> (r: (Stage, Option<Action>))
    ensures
        r == next(stage, event),
{
    match (stage, event) {
        (Stage::Start, Event::Started) => (Stage::Listing, Some(Action::ListHolding)),
        (Stage::Listing, Event::Listed) => (Stage::Copying, Some(Action::CopyToBackup)),
        (Stage::Listing, Event::ListingFailed) => (Stage::Aborted(Fault::ListingFailed), Some(Action::Abort(Fault::ListingFailed))),
        (Stage::Copying, Event::Copied(ok)) => if ok {
            (Stage::Fetching, Some(Action::FetchEncrypted))
        } else {
            (Stage::Aborted(Fault::CopyFailed), Some(Action::Abort(Fault::CopyFailed)))
        },
        (Stage::Fetching, Event::Fetched(answer)) => match answer {
            None => (Stage::Aborted(Fault::FetchFailed), Some(Action::Abort(Fault::FetchFailed))),
            Some(code) => if code == STATUS_CODE {
                (Stage::Storing, Some(Action::StoreEncrypted))
            } else {
                (Stage::Aborted(Fault::FetchStatus(code)), Some(Action::Abort(Fault::FetchStatus(code))))
            },
        },
        (Stage::Storing, Event::Stored(ok)) => if ok {
            (Stage::Decrypting, Some(Action::Decrypt))
        } else {
            (Stage::Aborted(Fault::StoreFailed), Some(Action::Abort(Fault::StoreFailed)))
        },
        (Stage::Decrypting, Event::Decrypted(ok)) => if ok {
            (Stage::DeletingHolding, Some(Action::DeleteHolding))
        } else {
            (Stage::Finished(Outcome::DecryptionFailed), Some(Action::Finish(Outcome::DecryptionFailed)))
        },
        (Stage::DeletingHolding, Event::HoldingDeleted(answer)) => match answer {
            None => (Stage::Aborted(Fault::DeleteFailed), Some(Action::Abort(Fault::DeleteFailed))),
            Some(code) => if code == STATUS_CODE_DEL {
                (Stage::DeletingLocal, Some(Action::DeleteLocal))
            } else {
                (Stage::Aborted(Fault::DeleteStatus(code)), Some(Action::Abort(Fault::DeleteStatus(code))))
            },
        },
        (Stage::DeletingLocal, Event::LocalDeleted(_)) => (Stage::Finished(Outcome::Completed), Some(Action::Finish(Outcome::Completed))),
        _ => (stage, None),
    }
}

/// The event that a decryption attempt reports: `Decrypted(true)` exactly
/// where the sealed box opened; `Decrypted(false)` where the keys could not
/// be read, the file was too short or the box did not open; nothing where
/// the plaintext is not UTF-8 text, on which the tool stops.
pub open spec fn decrypted_event(r: Result<Option<DecryptOutcome>, KeyError>) -> Option<Event> {
    match r {
        Err(_) => Some(Event::Decrypted(false)),
        Ok(None) => None,
        Ok(Some(o)) => Some(Event::Decrypted(o matches DecryptOutcome::Tried { opened: true, .. })),
    }
}

/// The event to report after decrypting a downloaded file with
/// `decrypt::decrypt_function`.
pub fn decryption_event(r: &Result<Option<DecryptOutcome>, KeyError>) -> (e: Option<Event>)
    ensures
        e == decrypted_event(*r),
        r matches Ok(None) ==> e is None,
        r is Err ==> e == Some(Event::Decrypted(false)),
        r matches Ok(Some(o)) ==> e == Some(Event::Decrypted(o matches DecryptOutcome::Tried { opened: true, .. })),
{
    match r {
        Err(_) => Some(Event::Decrypted(false)),
        Ok(None) => None,
        Ok(Some(DecryptOutcome::Tried { opened: true, .. })) => Some(Event::Decrypted(true)),
        Ok(Some(_)) => Some(Event::Decrypted(false)),
    }
}

/// The stage and the actions asked for after the caller reports `events`,
/// from the start.
pub open spec fn run(events: Seq<Event>) -> (Stage, Seq<Action>)
    decreases events.len(),
{
    if events.len() == 0 {
        (Stage::Start, Seq::empty())
    } else {
        let (stage, actions) = run(events.drop_last());
        let (next_stage, action) = next(stage, events.last());
        match action {
            Some(a) => (next_stage, actions.push(a)),
            None => (next_stage, actions),
        }
    }
}

/// Whether a run in this stage is over.
pub open spec fn is_final(stage: Stage) -> bool {
    stage is Finished || stage is Aborted
}

/// The position of a stage in the pipeline.
pub open spec fn stage_rank(stage: Stage) -> nat {
    match stage {
        Stage::Start => 0,
        Stage::Listing => 1,
        Stage::Copying => 2,
        Stage::Fetching => 3,
        Stage::Storing => 4,
        Stage::Decrypting => 5,
        Stage::DeletingHolding => 6,
        Stage::DeletingLocal => 7,
        Stage::Finished(_) => 8,
        Stage::Aborted(_) => 8,
    }
}

/// The position of an action in the pipeline.
pub open spec fn action_rank(action: Action) -> nat {
    match action {
        Action::ListHolding => 1,
        Action::CopyToBackup => 2,
        Action::FetchEncrypted => 3,
        Action::StoreEncrypted => 4,
        Action::Decrypt => 5,
        Action::DeleteHolding => 6,
        Action::DeleteLocal => 7,
        Action::Finish(_) => 8,
        Action::Abort(_) => 8,
    }
}

/// The stages after a successful copy to the backup folder.
pub open spec fn past_backup(stage: Stage) -> bool {
    ||| stage is Fetching
    ||| past_fetch(stage)
}

/// The stages after a download answered with status 200.
pub open spec fn past_fetch(stage: Stage) -> bool {
    ||| stage is Storing
    ||| past_store(stage)
}

/// The stages after the download was stored locally.
pub open spec fn past_store(stage: Stage) -> bool {
    ||| stage is Decrypting
    ||| stage is Finished
    ||| past_decryption(stage)
}

/// The stages after a successful decryption.
pub open spec fn past_decryption(stage: Stage) -> bool {
    ||| stage is DeletingHolding
    ||| past_holding_delete(stage)
}

/// The stages after the held object was deleted.
pub open spec fn past_holding_delete(stage: Stage) -> bool {
    ||| stage is DeletingLocal
    ||| stage == Stage::Finished(Outcome::Completed)
}

/// What holds of every run, by induction on the events.
pub open spec fn run_invariant(events: Seq<Event>) -> bool {
    let (stage, actions) = run(events);
    &&& actions.len() <= stage_rank(stage)
    &&& forall|i: int| 0 <= i < actions.len() ==> action_rank(#[trigger] actions[i]) <= stage_rank(stage)
    &&& forall|i: int, j: int| 0 <= i < j < actions.len() ==> action_rank(#[trigger] actions[i]) < action_rank(#[trigger] actions[j])
    &&& past_backup(stage) ==> events.contains(Event::Copied(true))
    &&& past_fetch(stage) ==> events.contains(Event::Fetched(Some(STATUS_CODE)))
    &&& past_store(stage) ==> events.contains(Event::Stored(true))
    &&& past_decryption(stage) ==> events.contains(Event::Decrypted(true))
    &&& past_holding_delete(stage) ==> events.contains(Event::HoldingDeleted(Some(STATUS_CODE_DEL)))
    &&& actions.contains(Action::DeleteHolding) ==> {
        &&& events.contains(Event::Copied(true))
        &&& events.contains(Event::Fetched(Some(STATUS_CODE)))
        &&& events.contains(Event::Stored(true))
        &&& events.contains(Event::Decrypted(true))
    }
    &&& actions.contains(Action::DeleteLocal) ==> events.contains(Event::HoldingDeleted(Some(STATUS_CODE_DEL)))
    &&& stage == Stage::Finished(Outcome::DecryptionFailed) ==> !actions.contains(Action::DeleteHolding)
}

proof fn lemma_next_moves_forward(stage: Stage, event: Event)
    ensures
        match next(stage, event) {
            (s, None) => s == stage,
            (s, Some(a)) => !is_final(stage) && action_rank(a) == stage_rank(s) && stage_rank(stage) < stage_rank(s),
        },
{
}

proof fn lemma_contains_after_push<T>(s: Seq<T>, e: T, x: T)
    ensures
        s.contains(x) ==> s.push(e).contains(x),
        s.push(e).contains(e),
        s.push(e).contains(x) ==> s.contains(x) || x == e,
{
    if s.contains(x) {
        let i = choose|i: int| 0 <= i < s.len() && s[i] == x;
        assert(s.push(e)[i] == x);
    }
    assert(s.push(e)[s.len() as int] == e);
    if s.push(e).contains(x) && x != e {
        let i = choose|i: int| 0 <= i < s.push(e).len() && s.push(e)[i] == x;
        assert(s[i] == x);
    }
}

proof fn lemma_run_invariant(events: Seq<Event>)
    ensures
        run_invariant(events),
    decreases events.len(),
{
    if events.len() > 0 {
        let pre = events.drop_last();
        let e = events.last();
        lemma_run_invariant(pre);
        assert(pre.push(e) =~= events);
        let (stage, actions) = run(pre);
        let (next_stage, action) = next(stage, e);
        lemma_next_moves_forward(stage, e);
        assert forall|x: Event| pre.contains(x) implies events.contains(x) by {
            lemma_contains_after_push(pre, e, x);
        }
        lemma_contains_after_push(pre, e, e);
        match action {
            None => {},
            Some(a) => {
                let acts = actions.push(a);
                assert forall|x: Action| acts.contains(x) implies actions.contains(x) || x == a by {
                    lemma_contains_after_push(actions, a, x);
                }
                assert forall|i: int| 0 <= i < acts.len() implies action_rank(#[trigger] acts[i]) <= stage_rank(next_stage) by {
                    if i < actions.len() {
                        assert(acts[i] == actions[i]);
                    }
                }
                assert forall|i: int, j: int| 0 <= i < j < acts.len() implies action_rank(#[trigger] acts[i]) < action_rank(#[trigger] acts[j]) by {
                    assert(acts[i] == actions[i]);
                    if j < actions.len() {
                        assert(acts[j] == actions[j]);
                    }
                }
                if stage is Decrypting {
                    assert forall|x: Action| #[trigger] actions.contains(x) implies action_rank(x) <= 5 by {
                        let i = choose|i: int| 0 <= i < actions.len() && actions[i] == x;
                    }
                }
            },
        }
    }
}

/// Law: once a run has finished or stopped, no event moves it or asks for
/// anything more.
pub proof fn law_final_stages_absorb(stage: Stage, event: Event)
    requires
        is_final(stage),
    ensures
        next(stage, event) == (stage, None::<Action>),
{
}

/// Law: a run asks for at most eight actions, whatever is reported.
pub proof fn law_run_is_bounded(events: Seq<Event>)
    ensures
        run(events).1.len() <= 8,
{
    lemma_run_invariant(events);
}

/// Law: the actions of a run follow the pipeline order (list, copy,
/// download, store, decrypt, delete held object, delete local file, end),
/// each at most once.
pub proof fn law_actions_in_pipeline_order(events: Seq<Event>)
    ensures
        forall|i: int, j: int| 0 <= i < j < run(events).1.len()
            ==> action_rank(#[trigger] run(events).1[i]) < action_rank(#[trigger] run(events).1[j]),
{
    lemma_run_invariant(events);
}

/// Law: the held object is deleted only once its backup copy, its download
/// (status 200) and its local copy have succeeded and the caller reported
/// `Decrypted(true)`, which `decryption_event` reports only for an opened
/// sealed box (see `law_unopened_box_keeps_holding`).
pub proof fn law_holding_deleted_only_after_backup_and_decryption(events: Seq<Event>)
    requires
        run(events).1.contains(Action::DeleteHolding),
    ensures
        events.contains(Event::Copied(true)),
        events.contains(Event::Fetched(Some(STATUS_CODE))),
        events.contains(Event::Stored(true)),
        events.contains(Event::Decrypted(true)),
{
    lemma_run_invariant(events);
}

/// Law: the local encrypted file is deleted only once the delete of the
/// held object answered with status 204.
pub proof fn law_local_deleted_only_after_holding_deleted(events: Seq<Event>)
    requires
        run(events).1.contains(Action::DeleteLocal),
    ensures
        events.contains(Event::HoldingDeleted(Some(STATUS_CODE_DEL))),
{
    lemma_run_invariant(events);
}

/// Law: a run that ends because decryption failed never asks to delete the
/// held object, so it stays in the holding folder.
pub proof fn law_failed_decryption_keeps_holding(events: Seq<Event>)
    requires
        run(events).0 == Stage::Finished(Outcome::DecryptionFailed),
    ensures
        !run(events).1.contains(Action::DeleteHolding),
{
    lemma_run_invariant(events);
}

/// Law: a completed run saw every step succeed.
pub proof fn law_completed_run_saw_every_step(events: Seq<Event>)
    requires
        run(events).0 == Stage::Finished(Outcome::Completed),
    ensures
        events.contains(Event::Copied(true)),
        events.contains(Event::Fetched(Some(STATUS_CODE))),
        events.contains(Event::Stored(true)),
        events.contains(Event::Decrypted(true)),
        events.contains(Event::HoldingDeleted(Some(STATUS_CODE_DEL))),
{
    lemma_run_invariant(events);
}

/// Law: a decryption attempt whose sealed box did not open (the keys could
/// not be read, the file was too short, or the box did not open) never
/// leads to deleting the held object: the event it reports does not move a
/// run that waits on decryption to the delete.
pub proof fn law_unopened_box_keeps_holding(r: Result<Option<DecryptOutcome>, KeyError>)
    requires
        !(r matches Ok(Some(DecryptOutcome::Tried { opened: true, .. }))),
    ensures
        forall|e: Event| decrypted_event(r) == Some(e) ==> next(Stage::Decrypting, e).1 != Some(Action::DeleteHolding),
{
}

/// The events of a run in which every step succeeds: the download answers
/// 200, the delete of the held object answers 204, and the local delete
/// reports `local_ok`, which the tool only prints.
pub open spec fn successful_events(local_ok: bool) -> Seq<Event> {
    seq![
        Event::Started,
        Event::Listed,
        Event::Copied(true),
        Event::Fetched(Some(200u32)),
        Event::Stored(true),
        Event::Decrypted(true),
        Event::HoldingDeleted(Some(204u32)),
        Event::LocalDeleted(local_ok),
    ]
}

/// The stages that such a run passes through, from the start.
pub open spec fn pipeline_stages() -> Seq<Stage> {
    seq![
        Stage::Start,
        Stage::Listing,
        Stage::Copying,
        Stage::Fetching,
        Stage::Storing,
        Stage::Decrypting,
        Stage::DeletingHolding,
        Stage::DeletingLocal,
        Stage::Finished(Outcome::Completed),
    ]
}

/// The actions that such a run asks for, in order.
pub open spec fn pipeline_actions() -> Seq<Action> {
    seq![
        Action::ListHolding,
        Action::CopyToBackup,
        Action::FetchEncrypted,
        Action::StoreEncrypted,
        Action::Decrypt,
        Action::DeleteHolding,
        Action::DeleteLocal,
        Action::Finish(Outcome::Completed),
    ]
}

/// Law: every step's success moves a run one step on. After the first `n`
/// events of a run in which every step succeeds, the run stands at the
/// `n`-th stage of the pipeline and has asked for its first `n` actions;
/// after all of them it has completed, whatever the local delete reported.
pub proof fn law_successful_run_completes(local_ok: bool, n: int)
    requires
        0 <= n <= 8,
    ensures
        run(successful_events(local_ok).take(n)) == (pipeline_stages()[n], pipeline_actions().take(n)),
        n == 8 ==> run(successful_events(local_ok)).0 == Stage::Finished(Outcome::Completed),
        n == 8 ==> run(successful_events(local_ok)).1.last() == Action::Finish(Outcome::Completed),
    decreases n,
{
    let evs = successful_events(local_ok);
    if n > 0 {
        law_successful_run_completes(local_ok, n - 1);
        assert(evs.take(n).drop_last() =~= evs.take(n - 1));
        assert(evs.take(n).last() == evs[n - 1]);
        assert(pipeline_actions().take(n - 1).push(pipeline_actions()[n - 1]) =~= pipeline_actions().take(n));
    } else {
        assert(evs.take(0) =~= Seq::<Event>::empty());
        assert(pipeline_actions().take(0) =~= Seq::<Action>::empty());
    }
    if n == 8 {
        assert(evs.take(8) =~= evs);
    }
}

/// Law: the result of deleting the local encrypted file does not decide
/// the outcome; once the held object is deleted the run completes.
pub proof fn law_local_delete_result_is_only_reported(local_ok: bool)
    ensures
        next(Stage::DeletingLocal, Event::LocalDeleted(local_ok))
            == (Stage::Finished(Outcome::Completed), Some(Action::Finish(Outcome::Completed))),
{
}

} // verus!
