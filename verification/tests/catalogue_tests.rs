use movie_nexus::scanner::{
    extract_served_files, find_served, sidecar_name, subtitle_name, video_entry, video_stem,
    CatalogueItem, RelativizedPath, SidecarConfig,
};

fn segs(parts: &[&str]) -> Vec<String> {
    parts.iter().map(|p| p.to_string()).collect()
}

fn config(duration: &str) -> SidecarConfig {
    SidecarConfig {
        title: "A Title".to_string(),
        subtitle: Some("A Subtitle".to_string()),
        duration: duration.to_string(),
        text_track_language: None,
    }
}

#[test]
fn relativized_path_strips_root() {
    let p = RelativizedPath::new(&segs(&["root"]), &segs(&["root", "a", "b.mp4"]));
    assert_eq!(p.path, segs(&["root", "a", "b.mp4"]));
    assert_eq!(p.relative_path, segs(&["a", "b.mp4"]));
}

#[test]
fn relative_url_joins_segments() {
    let p = RelativizedPath::new(&segs(&["root"]), &segs(&["root", "a", "b.mp4"]));
    assert_eq!(p.relative_url().as_deref(), Some("a/b.mp4"));
}

#[test]
fn relative_url_rejects_abnormal_segments() {
    let p = RelativizedPath {
        path: segs(&["root", "..", "b.mp4"]),
        relative_path: segs(&["..", "b.mp4"]),
    };
    assert!(p.relative_url().is_none());
    let q = RelativizedPath {
        path: segs(&["root", "x"]),
        relative_path: segs(&[""]),
    };
    assert!(q.relative_url().is_none());
}

#[test]
fn video_stem_accepts_only_video_extension() {
    assert_eq!(video_stem(&"movie.mp4".to_string()).as_deref(), Some("movie"));
    assert!(video_stem(&"movie.mkv".to_string()).is_none());
    assert!(video_stem(&".mp4".to_string()).is_none());
    assert!(video_stem(&"movie.toml".to_string()).is_none());
    assert_eq!(video_stem(&"a.b.mp4".to_string()).as_deref(), Some("a.b"));
}

#[test]
fn sibling_names_swap_extension() {
    assert_eq!(sidecar_name(&"movie".to_string()), "movie.toml");
    assert_eq!(subtitle_name(&"movie".to_string()), "movie.vtt");
}

#[test]
fn video_entry_computes_duration_in_milliseconds() {
    let item = video_entry(
        &segs(&["root"]),
        &segs(&["root", "movie.mp4"]),
        None,
        Some(&config("PT1H2M3S")),
    )
    .unwrap();
    match item {
        CatalogueItem::Video {
            path,
            title,
            subtitle,
            duration,
            text_tracks,
            thumbnails,
        } => {
            assert_eq!(path.relative_path, segs(&["movie.mp4"]));
            assert_eq!(title, "A Title");
            assert_eq!(subtitle.as_deref(), Some("A Subtitle"));
            assert_eq!(duration, 3_723_000);
            assert!(text_tracks.is_empty());
            assert!(thumbnails.is_empty());
        }
        _ => panic!("expected a video entry"),
    }
}

#[test]
fn video_entry_rejects_unparseable_duration() {
    let r = video_entry(
        &segs(&["root"]),
        &segs(&["root", "movie.mp4"]),
        None,
        Some(&config("soon")),
    );
    assert!(r.is_none());
}

#[test]
fn video_entry_rejects_week_duration() {
    let r = video_entry(
        &segs(&["root"]),
        &segs(&["root", "movie.mp4"]),
        None,
        Some(&config("P2W")),
    );
    assert!(r.is_none());
}

#[test]
fn video_entry_without_sidecar_is_skipped() {
    let r = video_entry(&segs(&["root"]), &segs(&["root", "movie.mp4"]), None, None);
    assert!(r.is_none());
}

#[test]
fn video_entry_attaches_subtitle_under_default_language() {
    let item = video_entry(
        &segs(&["root"]),
        &segs(&["root", "movie.mp4"]),
        Some(&segs(&["root", "movie.vtt"])),
        Some(&config("PT30S")),
    )
    .unwrap();
    match item {
        CatalogueItem::Video { text_tracks, .. } => {
            assert_eq!(text_tracks.len(), 1);
            assert_eq!(text_tracks[0].0, "en");
            assert_eq!(text_tracks[0].1.relative_path, segs(&["movie.vtt"]));
        }
        _ => panic!("expected a video entry"),
    }
}

#[test]
fn video_entry_keeps_configured_language() {
    let mut c = config("PT30S");
    c.text_track_language = Some("de".to_string());
    let item = video_entry(
        &segs(&["root"]),
        &segs(&["root", "movie.mp4"]),
        Some(&segs(&["root", "movie.vtt"])),
        Some(&c),
    )
    .unwrap();
    match item {
        CatalogueItem::Video { text_tracks, .. } => {
            assert_eq!(text_tracks[0].0, "de");
        }
        _ => panic!("expected a video entry"),
    }
}

#[test]
fn one_valid_pair_and_one_orphan_give_one_entry() {
    // a valid video+sidecar pair and a video missing its sidecar: the
    // catalogue holds one video and the served-set one entry
    let root = segs(&["root"]);
    let mut catalogue: Vec<CatalogueItem> = Vec::new();
    if let Some(item) = video_entry(
        &root,
        &segs(&["root", "good.mp4"]),
        None,
        Some(&config("PT1M")),
    ) {
        catalogue.push(item);
    }
    if let Some(item) = video_entry(&root, &segs(&["root", "orphan.mp4"]), None, None) {
        catalogue.push(item);
    }
    assert_eq!(catalogue.len(), 1);
    let served = extract_served_files(&catalogue);
    assert_eq!(served.len(), 1);
    assert_eq!(served[0].relative_path, segs(&["good.mp4"]));
}

#[test]
fn served_set_includes_text_tracks_not_directory_names() {
    let root = segs(&["root"]);
    let video = video_entry(
        &root,
        &segs(&["root", "sub", "movie.mp4"]),
        Some(&segs(&["root", "sub", "movie.vtt"])),
        Some(&config("PT2M")),
    )
    .unwrap();
    let catalogue = vec![CatalogueItem::Directory {
        name: "sub".to_string(),
        items: vec![video],
    }];
    let served = extract_served_files(&catalogue);
    assert_eq!(served.len(), 2);
    assert_eq!(served[0].relative_path, segs(&["sub", "movie.mp4"]));
    assert_eq!(served[1].relative_path, segs(&["sub", "movie.vtt"]));
}

#[test]
fn empty_directory_contributes_nothing() {
    let catalogue = vec![CatalogueItem::Directory {
        name: "empty".to_string(),
        items: Vec::new(),
    }];
    assert!(extract_served_files(&catalogue).is_empty());
}

#[test]
fn find_served_matches_relative_url() {
    let served = vec![
        RelativizedPath::new(&segs(&["root"]), &segs(&["root", "a", "v.mp4"])),
        RelativizedPath::new(&segs(&["root"]), &segs(&["root", "w.mp4"])),
    ];
    let hit = find_served(&served, &"a/v.mp4".to_string()).unwrap();
    assert_eq!(hit.path, segs(&["root", "a", "v.mp4"]));
    assert!(find_served(&served, &"v.mp4".to_string()).is_none());
    assert!(find_served(&served, &"root/a/v.mp4".to_string()).is_none());
}

#[test]
fn served_set_drops_duplicate_paths() {
    // a catalogue naming the same video twice yields one served entry,
    // the first occurrence
    let root = segs(&["root"]);
    let a = video_entry(&root, &segs(&["root", "movie.mp4"]), None, Some(&config("PT1M"))).unwrap();
    let b = video_entry(&root, &segs(&["root", "movie.mp4"]), None, Some(&config("PT1M"))).unwrap();
    let served = extract_served_files(&vec![a, b]);
    assert_eq!(served.len(), 1);
    assert_eq!(served[0].relative_path, segs(&["movie.mp4"]));
}
