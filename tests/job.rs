use hazel::error::AppError;
use hazel::item::{EntryKind, Item, ItemError, Kind, TimeStamp};
use hazel::job::{Job, Jobs};
use hazel::mediainfo::{InfoKind, StreamKind};

fn item(entry: EntryKind) -> Item {
    Item {
        path: "/in/song.mp3".to_string(),
        name: "song.mp3".to_string(),
        entry,
        size: 10,
        created: TimeStamp::Millis(1699191000000),
        modified: TimeStamp::Unavailable,
        accessed: TimeStamp::Unavailable,
        kind: Some(Kind::Audio),
        media: None,
    }
}

#[test]
fn new_job_defaults_destination_to_source() {
    let j = Job::new("music", "/in", None, "{kind}", true, false);
    assert_eq!(j.destination.as_deref(), Some("/in"));
    assert_eq!(j.recursive, Some(true));
    assert_eq!(j.watch, Some(false));
    let k = Job::new("music", "/in", Some("/out"), "{kind}", false, true);
    assert_eq!(k.destination.as_deref(), Some("/out"));
    assert_eq!(k.name, "music");
    assert_eq!(k.pattern, "{kind}");
}

#[test]
fn target_joins_destination_path_and_name() {
    let j = Job::new("music", "/in", Some("/out"), "{kind}/{year:created}", false, false);
    assert_eq!(j.target(&item(EntryKind::File)).unwrap(), "/out/audio/2023/song.mp3");
    assert_eq!(j.target(&item(EntryKind::Directory)).unwrap(), "/out/directory/2023/song.mp3");
    assert_eq!(j.target(&item(EntryKind::Other)).unwrap(), "/out/directory/2023/");
}

#[test]
fn target_reports_failures() {
    let j = Job::new("music", "/in", None, "{year:accessed}", false, false);
    assert!(matches!(
        j.target(&item(EntryKind::File)),
        Err(AppError::ItemError { error: ItemError::Metadata })
    ));
    let bad = Job::new("music", "/in", None, "{year", false, false);
    assert!(matches!(bad.target(&item(EntryKind::File)), Err(AppError::Pattern)));
}

#[test]
fn item_names() {
    let f = item(EntryKind::File);
    assert_eq!(f.file_name().as_deref(), Some("song.mp3"));
    assert_eq!(f.dir_name(), None);
    let d = item(EntryKind::Directory);
    assert_eq!(d.dir_name().as_deref(), Some("song.mp3"));
    assert_eq!(d.file_name(), None);
    assert_eq!(d.entry_name(), "song.mp3");
    assert_eq!(item(EntryKind::Other).entry_name(), "");
}

#[test]
fn run_all_stops_at_first_failure() {
    let jobs = Jobs {
        jobs: vec![
            Job::new("a", "/a", None, "", false, false),
            Job::new("b", "/b", None, "", false, false),
            Job::new("c", "/c", None, "", false, false),
        ],
    };
    let seen = std::cell::RefCell::new(Vec::new());
    let r = jobs.run_all(|j: &Job| {
        seen.borrow_mut().push(j.name.clone());
        if j.name == "b" {
            Err(AppError::PathExists)
        } else {
            Ok(())
        }
    });
    assert!(matches!(r, Err(AppError::PathExists)));
    assert_eq!(*seen.borrow(), vec!["a", "b"]);
    assert!(jobs.run_all(|_: &Job| Ok(())).is_ok());
}

#[test]
fn media_streams() {
    assert_eq!(StreamKind::for_kind(Some(Kind::Image)), Some(StreamKind::Image));
    assert_eq!(StreamKind::for_kind(Some(Kind::Video)), Some(StreamKind::Video));
    assert_eq!(StreamKind::for_kind(Some(Kind::Audio)), None);
    assert_eq!(StreamKind::for_kind(None), None);
    assert_eq!(StreamKind::Image.code(), 5);
    assert_eq!(StreamKind::Video.code(), 1);
    assert_eq!(InfoKind::Text.code(), 1);
    assert_eq!(InfoKind::Name.code(), 0);
}

#[test]
fn dates_from_item() {
    let f = item(EntryKind::File);
    let d = f.created().unwrap();
    assert_eq!((d.year, d.month, d.day), (2023, 11, 5));
    assert_eq!(f.modified(), Err(ItemError::Metadata));
    let mut old = item(EntryKind::File);
    old.created = TimeStamp::Millis(0);
    let e = old.created().unwrap();
    assert_eq!((e.year, e.month, e.day), (1970, 1, 1));
}
