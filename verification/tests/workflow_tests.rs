use s3_decrypt::decrypt::{DecryptOutcome, KeyError};
use s3_decrypt::workflow::decryption_event;
use s3_decrypt::workflow::{
    list_objects_in_holding, step, Action, Event, Fault, ListingPage, Outcome, Stage, STATUS_CODE,
    STATUS_CODE_DEL,
};

fn drive(events: &[Event]) -> (Stage, Vec<Action>) {
    let mut stage = Stage::Start;
    let mut actions = Vec::new();
    for e in events {
        let (s, a) = step(stage, *e);
        stage = s;
        if let Some(a) = a {
            actions.push(a);
        }
    }
    (stage, actions)
}

fn page(keys: &[&str], code: u32) -> ListingPage {
    ListingPage { name: "bucket".to_string(), keys: keys.iter().map(|k| k.to_string()).collect(), code }
}

#[test]
fn happy_run_does_every_step_in_order() {
    let (stage, actions) = drive(&[
        Event::Started,
        Event::Listed,
        Event::Copied(true),
        Event::Fetched(Some(STATUS_CODE)),
        Event::Stored(true),
        Event::Decrypted(true),
        Event::HoldingDeleted(Some(STATUS_CODE_DEL)),
        Event::LocalDeleted(false),
    ]);
    assert_eq!(stage, Stage::Finished(Outcome::Completed));
    assert_eq!(
        actions,
        vec![
            Action::ListHolding,
            Action::CopyToBackup,
            Action::FetchEncrypted,
            Action::StoreEncrypted,
            Action::Decrypt,
            Action::DeleteHolding,
            Action::DeleteLocal,
            Action::Finish(Outcome::Completed),
        ]
    );
}

#[test]
fn failed_decryption_keeps_the_held_object() {
    let (stage, actions) = drive(&[
        Event::Started,
        Event::Listed,
        Event::Copied(true),
        Event::Fetched(Some(200)),
        Event::Stored(true),
        Event::Decrypted(false),
        Event::HoldingDeleted(Some(204)),
    ]);
    assert_eq!(stage, Stage::Finished(Outcome::DecryptionFailed));
    assert!(!actions.contains(&Action::DeleteHolding));
    assert_eq!(actions.last(), Some(&Action::Finish(Outcome::DecryptionFailed)));
}

#[test]
fn bad_statuses_stop_the_run() {
    let (stage, _) = drive(&[Event::Started, Event::Listed, Event::Copied(true), Event::Fetched(Some(404))]);
    assert_eq!(stage, Stage::Aborted(Fault::FetchStatus(404)));
    let (stage, actions) = drive(&[
        Event::Started,
        Event::Listed,
        Event::Copied(true),
        Event::Fetched(Some(200)),
        Event::Stored(true),
        Event::Decrypted(true),
        Event::HoldingDeleted(Some(200)),
        Event::LocalDeleted(true),
    ]);
    assert_eq!(stage, Stage::Aborted(Fault::DeleteStatus(200)));
    assert!(!actions.contains(&Action::DeleteLocal));
    let (stage, _) = drive(&[Event::Started, Event::Listed, Event::Copied(false)]);
    assert_eq!(stage, Stage::Aborted(Fault::CopyFailed));
}

#[test]
fn unexpected_events_change_nothing() {
    assert_eq!(step(Stage::Start, Event::Copied(true)), (Stage::Start, None));
    assert_eq!(step(Stage::Copying, Event::Listed), (Stage::Copying, None));
    let done = Stage::Finished(Outcome::Completed);
    assert_eq!(step(done, Event::Started), (done, None));
}

#[test]
fn listing_gives_second_key_of_each_page() {
    let ok = list_objects_in_holding(&vec![page(&["holding/", "holding/a"], 200), page(&["x", "y", "z"], 200)]);
    assert_eq!(ok, vec!["holding/a".to_string(), "y".to_string()]);
    assert!(list_objects_in_holding(&vec![]).is_empty());
    let (stage, actions) = drive(&[Event::Started, Event::ListingFailed]);
    assert_eq!(stage, Stage::Aborted(Fault::ListingFailed));
    assert_eq!(actions, vec![Action::ListHolding, Action::Abort(Fault::ListingFailed)]);
}

#[test]
fn decryption_event_follows_the_opening() {
    let opened: Result<Option<DecryptOutcome>, KeyError> =
        Ok(Some(DecryptOutcome::Tried { plaintext: vec![], opened: true, records: Ok(()) }));
    assert_eq!(decryption_event(&opened), Some(Event::Decrypted(true)));
    let closed: Result<Option<DecryptOutcome>, KeyError> =
        Ok(Some(DecryptOutcome::Tried { plaintext: vec![0], opened: false, records: Ok(()) }));
    assert_eq!(decryption_event(&closed), Some(Event::Decrypted(false)));
    let short: Result<Option<DecryptOutcome>, KeyError> = Ok(Some(DecryptOutcome::TooShort));
    assert_eq!(decryption_event(&short), Some(Event::Decrypted(false)));
    let bad_keys: Result<Option<DecryptOutcome>, KeyError> = Err(KeyError::PublicKeyLength);
    assert_eq!(decryption_event(&bad_keys), Some(Event::Decrypted(false)));
    let stalled: Result<Option<DecryptOutcome>, KeyError> = Ok(None);
    assert_eq!(decryption_event(&stalled), None);
    let (stage, actions) = drive(&[
        Event::Started,
        Event::Listed,
        Event::Copied(true),
        Event::Fetched(Some(200)),
        Event::Stored(true),
        decryption_event(&closed).unwrap(),
    ]);
    assert_eq!(stage, Stage::Finished(Outcome::DecryptionFailed));
    assert!(!actions.contains(&Action::DeleteHolding));
}
