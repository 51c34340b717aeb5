use hazel::error::AppError;
use hazel::item::{EntryKind, Item, ItemError, Kind, MediaFields, TimeStamp};
use hazel::render::parse_pattern;

const NOV_5_2023: u128 = 1699191000000;

fn file(path: &str, size: u64) -> Item {
    Item {
        path: path.to_string(),
        name: path.rsplit('/').next().unwrap().to_string(),
        entry: EntryKind::File,
        size,
        created: TimeStamp::Millis(NOV_5_2023),
        modified: TimeStamp::Millis(917740800000),
        accessed: TimeStamp::Unavailable,
        kind: None,
        media: None,
    }
}

fn dir(path: &str) -> Item {
    Item { entry: EntryKind::Directory, ..file(path, 4096) }
}

fn render(pattern: &str, item: &Item) -> Vec<String> {
    parse_pattern(pattern, item).expect("renders")
}

fn failure(pattern: &str, item: &Item) -> AppError {
    parse_pattern(pattern, item).expect_err("fails")
}

fn item_error(e: AppError) -> ItemError {
    match e {
        AppError::ItemError { error } => error,
        other => panic!("unexpected error {other:?}"),
    }
}

#[test]
fn literal_template_is_split_at_separators() {
    let item = file("/src/a.txt", 10);
    assert_eq!(render("photos/2023//misc/", &item), vec!["photos", "2023", "misc"]);
    assert_eq!(render("/", &item), Vec::<String>::new());
    assert_eq!(render("", &item), Vec::<String>::new());
    assert_eq!(render("a b:c,d", &item), vec!["a b:c,d"]);
}

#[test]
fn created_year_month_day_alone() {
    let item = file("/src/a.txt", 10);
    assert_eq!(render("{year:created}", &item), vec!["2023"]);
    assert_eq!(render("{month:created}", &item), vec!["11"]);
    assert_eq!(render("{day:created}", &item), vec!["5"]);
}

#[test]
fn modified_date_is_unpadded() {
    let item = file("/src/a.txt", 10);
    assert_eq!(render("{year:modified}-{month:modified}-{day:modified}", &item), vec!["1999-1-31"]);
}

#[test]
fn end_to_end_dates() {
    let item = file("/src/a.txt", 10);
    assert_eq!(render("/{year:created}/{month:created}/", &item), vec!["2023", "11"]);
}

#[test]
fn end_to_end_size_bucket() {
    let item = file("/src/a.bin", 500000);
    assert_eq!(render("{size:small:lt:1:M,large:gt:1:M}", &item), vec!["small"]);
}

#[test]
fn first_matching_bucket_wins() {
    let item = file("/src/a.bin", 614400);
    assert_eq!(render("{size:small:lt:1:M,big:gt:500:K}", &item), vec!["small"]);
    assert_eq!(render("{size:big:gt:500:K,small:lt:1:M}", &item), vec!["big"]);
}

#[test]
fn equal_size_selects_bucket() {
    let item = file("/src/a.bin", 102400);
    assert_eq!(render("{size:exact:gt:100:K}", &item), vec!["exact"]);
    assert_eq!(render("{size:exact:lt:100:K}", &item), vec!["exact"]);
}

#[test]
fn no_bucket_drops_component() {
    let item = file("/src/a.bin", 10);
    assert_eq!(render("a/{size:big:gt:1:K}/b", &item), vec!["a", "b"]);
}

#[test]
fn unknown_unit_counts_as_zero() {
    assert_eq!(render("{size:zero:gt:5:X}", &file("/a", 0)), vec!["zero"]);
    assert_eq!(render("{size:zero:gt:5:X}", &file("/a", 10)), vec!["zero"]);
    assert_eq!(render("{size:zero:lt:5:X}", &file("/a", 10)), Vec::<String>::new());
}

#[test]
fn gigabyte_bucket() {
    let item = file("/a", 3 * 1024 * 1024 * 1024);
    assert_eq!(render("{size:huge:gt:2:G,tiny:lt:1:B}", &item), vec!["huge"]);
}

#[test]
fn size_without_buckets_is_byte_count() {
    assert_eq!(render("{size}", &file("/a", 500000)), vec!["500000"]);
    assert_eq!(render("{size}", &file("/a", 0)), vec!["0"]);
    assert_eq!(render("{size}", &dir("/d")), Vec::<String>::new());
}

#[test]
fn partial_component_is_dropped() {
    let item = file("/src/README", 10);
    assert_eq!(render("{extension}x", &item), Vec::<String>::new());
    assert_eq!(render("a/{extension}x/b", &item), vec!["a", "b"]);
}

#[test]
fn extension_of_file() {
    assert_eq!(render("{extension}", &file("/src/a.tar.gz", 1)), vec!["gz"]);
    assert_eq!(render("ext-{extension}", &file("/src/photo.JPG", 1)), vec!["ext-JPG"]);
    assert_eq!(render("{extension}", &dir("/src/d.x")), Vec::<String>::new());
}

#[test]
fn rendering_twice_is_identical() {
    let item = file("/src/a.png", 2048);
    let p = "/{year:created}/{size:s:lt:1:M}/{mime}/{extension}";
    let first = render(p, &item);
    let second = render(p, &item);
    assert_eq!(first, second);
    assert_eq!(first, vec!["2023", "s", "image/png", "png"]);
}

#[test]
fn unknown_token_degrades_to_nothing() {
    let item = file("/src/a.txt", 10);
    assert_eq!(render("{bogus}/{year:created}", &item), vec!["2023"]);
    assert_eq!(render("a{bogus}/b", &item), vec!["b"]);
    assert_eq!(render("{Year:created}", &item), Vec::<String>::new());
}

#[test]
fn mime_of_file_and_directory() {
    assert_eq!(render("{mime}", &file("/src/photo.png", 1)), vec!["image/png"]);
    assert_eq!(render("{mime}", &file("/src/README", 1)), vec!["text/plain"]);
    assert_eq!(render("{mime}", &dir("/src/d")), Vec::<String>::new());
}

#[test]
fn kind_labels() {
    let mut item = file("/src/photo.png", 1);
    item.kind = Some(Kind::Image);
    assert_eq!(render("{kind}", &item), vec!["image"]);
    item.kind = Some(Kind::Rom);
    assert_eq!(render("{kind}", &item), vec!["rom"]);
    item.kind = None;
    assert_eq!(render("{kind}", &item), Vec::<String>::new());
    assert_eq!(render("{kind}", &dir("/src/d")), vec!["directory"]);
}

#[test]
fn application_kind_uses_mime_type() {
    let mut item = file("/src/report.pdf", 1);
    item.kind = Some(Kind::Application);
    assert_eq!(render("{kind}", &item), vec!["application"]);
    item.path = "/src/noext".to_string();
    assert_eq!(render("{kind}", &item), Vec::<String>::new());
}

#[test]
fn width_and_height_of_media() {
    let mut item = file("/src/v.mp4", 1);
    item.kind = Some(Kind::Video);
    item.media = Some(MediaFields { width: "1920".to_string(), height: "+1080".to_string() });
    assert_eq!(render("{width}x{height}", &item), vec!["1920x1080"]);
    assert_eq!(item.width(), Ok(1920));
    assert_eq!(item.height(), Ok(1080));
}

#[test]
fn dimension_failures_abort() {
    let mut item = file("/src/v.mp4", 1);
    assert_eq!(item.width(), Err(ItemError::Format));
    assert_eq!(item_error(failure("a/{width}/b", &item)), ItemError::Format);
    item.kind = Some(Kind::Audio);
    assert_eq!(item.width(), Err(ItemError::Failure));
    assert_eq!(item_error(failure("{height}", &item)), ItemError::Failure);
    item.kind = Some(Kind::Image);
    assert_eq!(item.width(), Err(ItemError::Open));
    assert_eq!(item_error(failure("ok/{width}", &item)), ItemError::Open);
    item.media = Some(MediaFields { width: "wide".to_string(), height: "".to_string() });
    assert_eq!(item.width(), Err(ItemError::ParseIntError));
    assert_eq!(item.height(), Err(ItemError::ParseIntError));
    assert_eq!(item_error(failure("a/{width}/b", &item)), ItemError::ParseIntError);
}

#[test]
fn empty_contribution_drops_component() {
    let item = file("/src/foo.", 10);
    assert_eq!(item.extension().as_deref(), Some(""));
    assert_eq!(render("{extension}x", &item), Vec::<String>::new());
    assert_eq!(render("a/{extension}x/b", &item), vec!["a", "b"]);
    assert_eq!(render("{extension}", &item), Vec::<String>::new());
}

#[test]
fn item_error_messages() {
    assert_eq!(ItemError::UnknownSpecifier.message(), "Unknown specifier on item");
    assert_eq!(ItemError::Failure.message(), "Item failure");
    assert_eq!(ItemError::Open.message(), "Failed to open item");
    assert_eq!(ItemError::Metadata.message(), "Failed to get item metadata");
    assert_eq!(ItemError::Format.message(), "Error getting item format");
    assert_eq!(ItemError::ConvertTime.message(), "Error converting time");
    assert_eq!(ItemError::IO.message(), "I/O error");
    assert_eq!(ItemError::ParseIntError.message(), "Failed to parse int");
}

#[test]
fn temporal_token_needs_specifier() {
    let item = file("/src/a.txt", 10);
    assert_eq!(item_error(failure("{year}", &item)), ItemError::UnknownSpecifier);
    assert_eq!(item_error(failure("{month:lowercase}", &item)), ItemError::UnknownSpecifier);
    assert_eq!(item_error(failure("ok/{day:whenever}", &item)), ItemError::UnknownSpecifier);
}

#[test]
fn timestamp_failures_abort() {
    let mut item = file("/src/a.txt", 10);
    assert_eq!(item_error(failure("{year:accessed}", &item)), ItemError::Metadata);
    item.created = TimeStamp::BeforeEpoch;
    assert_eq!(item_error(failure("{year:created}", &item)), ItemError::Failure);
    item.created = TimeStamp::Millis(u128::MAX);
    assert_eq!(item_error(failure("{year:created}", &item)), ItemError::ConvertTime);
    item.created = TimeStamp::Millis(i64::MAX as u128);
    assert_eq!(item_error(failure("{year:created}", &item)), ItemError::ConvertTime);
}

#[test]
fn malformed_templates_are_rejected() {
    let item = file("/src/a.txt", 10);
    for p in ["{year", "}", "a}b", "{a{b}}", "{}", "{year:}", "{:created}", "{a/b}", "{size:a:b:c}", "{size:s:lt:1:M,}", "{size:s:lt:1:,t:gt:1:K}"] {
        assert!(matches!(failure(p, &item), AppError::Pattern), "{p}");
    }
}

#[test]
fn amount_overflow_is_not_a_bucket() {
    let item = file("/src/a.txt", 10);
    assert!(matches!(failure("{size:s:lt:99999999999999999999:K}", &item), AppError::Pattern));
    assert_eq!(render("{size:s:lt:18446744073709551615:B}", &item), vec!["s"]);
}
