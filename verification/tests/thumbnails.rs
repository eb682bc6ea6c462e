//! Tests for the thumbnail subsystem: naming, scanning, grouped
//! listings, resize planning and progress tracking.

use velum::thumbnails::{
    ImageListEntry, ImageListDir, NameParts, ProgressTracker, ThumbErrorKind,
    create_thumbnail, generate_thumbnail_bytes, get_image_list, is_thumbnail,
    is_valid_image_file, join_path, list_from_entries, target_dimensions,
};

fn entry(path: &str, is_dir: bool) -> (String, bool) {
    (path.to_string(), is_dir)
}

#[test]
fn thumbnail_name_is_deterministic() {
    let a = ImageListEntry::thumbnail_file_name("photo.jpg").unwrap();
    let b = ImageListEntry::thumbnail_file_name("photo.jpg").unwrap();
    assert_eq!(a, b);
    assert_eq!(a, "photo_thumbnail.jpg");
}

#[test]
fn thumbnail_name_keeps_stem_dots() {
    let t = ImageListEntry::thumbnail_file_name("a.b.png").unwrap();
    assert_eq!(t, "a.b_thumbnail.png");
}

#[test]
fn derived_name_is_recognised_as_thumbnail() {
    let t = ImageListEntry::thumbnail_file_name("photo.jpg").unwrap();
    assert!(is_thumbnail(&t));
    assert!(!is_thumbnail("photo.jpg"));
}

#[test]
fn malformed_names_fail() {
    let e1 = ImageListEntry::thumbnail_file_name("noext").unwrap_err();
    assert_eq!(e1.kind, ThumbErrorKind::Name);
    let e2 = ImageListEntry::thumbnail_file_name(".hidden").unwrap_err();
    assert_eq!(e2.kind, ThumbErrorKind::Name);
    let e3 = ImageListEntry::thumbnail_file_name("trailing.").unwrap_err();
    assert_eq!(e3.kind, ThumbErrorKind::Name);
}

#[test]
fn name_parts_split() {
    let p = NameParts::new("root/2024/03/a.jpg").unwrap();
    assert_eq!(p.dir, "root/2024/03");
    assert_eq!(p.file_name, "a.jpg");
    let q = NameParts::new("bare.jpg").unwrap();
    assert_eq!(q.dir, "");
    assert_eq!(q.file_name, "bare.jpg");
    assert!(NameParts::new("").is_err());
    assert!(NameParts::new("dir/").is_err());
}

#[test]
fn scanner_filters() {
    assert!(is_valid_image_file("a.jpg"));
    assert!(is_valid_image_file("a.JPG"));
    assert!(is_valid_image_file("a.jpeg"));
    assert!(is_valid_image_file("a.png"));
    assert!(is_valid_image_file("a.gif"));
    assert!(!is_valid_image_file("a.txt"));
    assert!(!is_valid_image_file("noext"));
    assert!(!is_valid_image_file("a_thumbnail.jpg"));
}

#[test]
fn join_path_handles_empty_dir() {
    assert_eq!(join_path("", "a.jpg"), "a.jpg");
    assert_eq!(join_path("d", "a.jpg"), "d/a.jpg");
}

#[test]
fn target_dimensions_preserve_aspect() {
    assert_eq!(target_dimensions(400, 200, 150), (150, 75));
    assert_eq!(target_dimensions(200, 400, 150), (75, 150));
    assert_eq!(target_dimensions(100, 100, 150), (150, 150));
    // rounding to nearest: 150 * 199 / 400 = 74.625
    assert_eq!(target_dimensions(400, 199, 150), (150, 75));
}

#[test]
fn resize_produces_sized_jpeg() {
    let img = image::DynamicImage::new_rgb8(400, 200);
    let mut bytes: Vec<u8> = Vec::new();
    img.write_to(
        &mut std::io::Cursor::new(&mut bytes),
        image::ImageFormat::Png,
    )
    .unwrap();
    let thumb = generate_thumbnail_bytes(&bytes, 150).unwrap();
    let decoded = image::load_from_memory(&thumb).unwrap();
    assert_eq!(image::GenericImageView::dimensions(&decoded), (150, 75));

    let img2 = image::DynamicImage::new_rgb8(200, 400);
    let mut bytes2: Vec<u8> = Vec::new();
    img2.write_to(
        &mut std::io::Cursor::new(&mut bytes2),
        image::ImageFormat::Png,
    )
    .unwrap();
    let thumb2 = generate_thumbnail_bytes(&bytes2, 150).unwrap();
    let decoded2 = image::load_from_memory(&thumb2).unwrap();
    assert_eq!(image::GenericImageView::dimensions(&decoded2), (75, 150));
}

#[test]
fn generate_rejects_garbage() {
    let garbage: Vec<u8> = vec![1, 2, 3, 4];
    let e = generate_thumbnail_bytes(&garbage, 150).unwrap_err();
    assert_eq!(e.kind, ThumbErrorKind::File);
}

#[test]
fn generate_skips_existing_thumbnail() {
    // with the thumbnail already present, no decode is attempted:
    // garbage bytes pass through untouched and nothing is produced
    let parts = NameParts::new("root/2024/03/a.jpg").unwrap();
    let garbage: Vec<u8> = vec![1, 2, 3, 4];
    let r = create_thumbnail(&parts, true, &garbage, 150).unwrap();
    assert!(r.is_none());
}

#[test]
fn generate_runs_when_missing() {
    let parts = NameParts::new("root/2024/03/a.png").unwrap();
    let img = image::DynamicImage::new_rgb8(40, 20);
    let mut bytes: Vec<u8> = Vec::new();
    img.write_to(
        &mut std::io::Cursor::new(&mut bytes),
        image::ImageFormat::Png,
    )
    .unwrap();
    let (path, produced) = create_thumbnail(&parts, false, &bytes, 150).unwrap().unwrap();
    assert_eq!(path, "root/2024/03/a_thumbnail.png");
    assert!(!produced.is_empty());
}

#[test]
fn listing_is_idempotent() {
    let entries = vec![
        entry("root", true),
        entry("root/2024/03/a.jpg", false),
        entry("root/2024/02/c.png", false),
    ];
    let s1 = list_from_entries(&entries);
    let s2 = list_from_entries(&entries);
    assert_eq!(s1.groups.len(), s2.groups.len());
    for (g1, g2) in s1.groups.iter().zip(s2.groups.iter()) {
        assert_eq!(g1.0 .0, g2.0 .0);
        assert_eq!(g1.1.dir, g2.1.dir);
        assert_eq!(g1.1.file_names.len(), g2.1.file_names.len());
        for (e1, e2) in g1.1.file_names.iter().zip(g2.1.file_names.iter()) {
            assert_eq!(e1.orig_file_name, e2.orig_file_name);
            assert_eq!(e1.thumbnail_file_name, e2.thumbnail_file_name);
        }
    }
}

#[test]
fn progress_tracker_converges() {
    let mut t = ProgressTracker::new(3);
    t.register("a.jpg");
    t.register("b.jpg");
    t.register("c.jpg");
    t.register("a.jpg"); // registered once only
    let s0 = t.snapshot();
    assert_eq!(s0.count, 3);
    assert_eq!(s0.total, 3);
    t.complete("b.jpg");
    let s1 = t.snapshot();
    assert_eq!(s1.count, 2);
    t.complete("missing.jpg"); // completing an unknown path changes nothing
    assert_eq!(t.snapshot().count, 2);
    t.complete("a.jpg");
    t.complete("c.jpg");
    let s2 = t.snapshot();
    assert_eq!(s2.count, 0);
    assert_eq!(s2.total, 3);
}

#[test]
fn end_to_end_scan_listing() {
    let entries = vec![
        entry("root", true),
        entry("root/2024", true),
        entry("root/2024/03", true),
        entry("root/2024/03/a.jpg", false),
        entry("root/2024/03/b.jpg", false),
        entry("root/2024/03/b_thumbnail.jpg", false),
        entry("root/2024/02", true),
        entry("root/2024/02/c.png", false),
    ];
    let scan = list_from_entries(&entries);

    // two groups, the most recent directory first
    assert_eq!(scan.groups.len(), 2);
    assert_eq!(scan.groups[0].1.dir, "root/2024/03");
    assert_eq!(scan.groups[1].1.dir, "root/2024/02");

    // both a.jpg and b.jpg appear, each with its derived name
    let names: Vec<&str> = scan.groups[0]
        .1
        .file_names
        .iter()
        .map(|e| e.orig_file_name.as_str())
        .collect();
    assert_eq!(names, vec!["a.jpg", "b.jpg"]);
    assert_eq!(
        scan.groups[0].1.file_names[0].thumbnail_file_name,
        "a_thumbnail.jpg"
    );
    assert_eq!(
        scan.groups[0].1.file_names[1].thumbnail_file_name,
        "b_thumbnail.jpg"
    );

    // a.jpg and c.png lack thumbnails; b.jpg has one
    let jobs: Vec<&str> = scan.jobs.iter().map(|j| j.path.as_str()).collect();
    assert_eq!(jobs, vec!["root/2024/03/a.jpg", "root/2024/02/c.png"]);
    assert_eq!(scan.remaining.count, 2);
    assert_eq!(scan.remaining.total, 2);

    // completing the background work drains the tracker, total stays
    let mut tracker = scan.tracker;
    tracker.complete("root/2024/03/a.jpg");
    tracker.complete("root/2024/02/c.png");
    let s = tracker.snapshot();
    assert_eq!(s.count, 0);
    assert_eq!(s.total, 2);
}

#[test]
fn get_image_list_rejects_missing_root() {
    let r = get_image_list("this-directory-does-not-exist-anywhere");
    match r {
        Ok(_) => panic!("scan of a missing root must fail"),
        Err(e) => assert_eq!(e.kind, ThumbErrorKind::File),
    }
}

#[test]
fn reslash_for_html() {
    assert_eq!(ImageListDir::reslash("a\\b\\c"), "a/b/c");
    assert_eq!(ImageListDir::reslash("a/b"), "a/b");
}
