//! The catalogue model: relativized paths, catalogue items built from
//! directory entries and sidecar metadata, and the served-set derived from
//! the catalogue. Paths are sequences of name segments; all directory
//! reading happens outside the library.
use vstd::prelude::*;

use crate::text::join_path_segments;
use crate::text::join_segments;

verus! {

/// A normal path segment: non-empty, not a `.` or `..` marker, and without
/// a separator.
pub open spec fn valid_segment(seg: Seq<char>) -> bool {
    &&& seg.len() > 0
    &&& seg != seq!['.']
    &&& seq!['.', '.'] != seg
    &&& !seg.contains('/')
}

/// A physical filesystem path paired with its path relative to the
/// catalogue root, both as name segments. Built once during the scan and
/// immutable afterwards; the relative part is the client-visible identifier.
pub struct RelativizedPath {
    pub path: Vec<String>,
    pub relative_path: Vec<String>,
}

impl DeepView for RelativizedPath {
    type V = (Seq<Seq<char>>, Seq<Seq<char>>);

    open spec fn deep_view(&self) -> Self::V {
        (self.path.deep_view(), self.relative_path.deep_view())
    }
}

/// Copies path segments.
fn clone_segments(segs: &Vec<String>) -> (r: Vec<String>)
    ensures
        r.deep_view() == segs.deep_view(),
{
    let mut out: Vec<String> = Vec::new();
    let mut i: usize = 0;
    while i < segs.len()
        invariant
            i <= segs.len(),
            out@.len() == i,
            forall|k: int| 0 <= k < i ==> out@[k] == segs@[k],
        decreases segs.len() - i,
    {
        out.push(segs[i].clone());
        i = i + 1;
    }
    proof {
        assert forall|k: int| 0 <= k < segs@.len() implies out.deep_view()[k]
            == segs.deep_view()[k] by {
            assert(out@[k] == segs@[k]);
        }
        assert(out.deep_view() =~= segs.deep_view());
    }
    out
}

impl RelativizedPath {
    /// Pairs a path discovered under the catalogue root with its path
    /// relative to that root.
    pub fn new(root_path: &Vec<String>, path: &Vec<String>) -> (r: RelativizedPath)
        requires
            root_path@.len() <= path@.len(),
            forall|i: int|
                0 <= i < root_path@.len() ==> root_path.deep_view()[i] == path.deep_view()[i],
        ensures
            r.deep_view().0 == path.deep_view(),
            r.deep_view().1 == path.deep_view().skip(root_path@.len() as int),
    {
        let ghost rl = root_path@.len() as int;
        let mut rel: Vec<String> = Vec::new();
        let mut i: usize = root_path.len();
        while i < path.len()
            invariant
                rl == root_path@.len(),
                root_path@.len() <= i <= path@.len(),
                rel@.len() == i - rl,
                forall|k: int| 0 <= k < rel@.len() ==> rel@[k] == path@[rl + k],
            decreases path.len() - i,
        {
            rel.push(path[i].clone());
            i = i + 1;
        }
        proof {
            assert forall|k: int| 0 <= k < rel@.len() implies rel.deep_view()[k]
                == path.deep_view().skip(rl)[k] by {
                assert(rel@[k] == path@[rl + k]);
            }
            assert(rel.deep_view() =~= path.deep_view().skip(rl));
        }
        RelativizedPath { path: clone_segments(path), relative_path: rel }
    }

    /// Makes a copy.
    pub fn duplicate(&self) -> (r: RelativizedPath)
        ensures
            r.deep_view() == self.deep_view(),
    {
        RelativizedPath {
            path: clone_segments(&self.path),
            relative_path: clone_segments(&self.relative_path),
        }
    }

    /// The client-visible identifier: the relative segments joined by `/`.
    /// A relative path with a segment that is not a normal name is a
    /// serialization-time fault, reported as `None`, never repaired.
    pub fn relative_url(&self) -> (r: Option<String>)
        ensures
            r is Some <==> (forall|i: int|
                0 <= i < self.relative_path.deep_view().len() ==> valid_segment(
                    self.relative_path.deep_view()[i],
                )),
            r matches Some(s) ==> s@ == join_segments(self.relative_path.deep_view()),
    {
        let mut i: usize = 0;
        while i < self.relative_path.len()
            invariant
                i <= self.relative_path@.len(),
                forall|k: int|
                    0 <= k < i ==> valid_segment(self.relative_path.deep_view()[k]),
            decreases self.relative_path@.len() - i,
        {
            if !is_valid_segment(&self.relative_path[i]) {
                proof {
                    assert(self.relative_path.deep_view()[i as int]
                        == self.relative_path@[i as int]@);
                }
                return None;
            }
            proof {
                assert(self.relative_path.deep_view()[i as int]
                    == self.relative_path@[i as int]@);
            }
            i = i + 1;
        }
        Some(join_path_segments(&self.relative_path))
    }
}

/// Whether one segment is a normal name.
fn is_valid_segment(seg: &String) -> (b: bool)
    ensures
        b == valid_segment(seg@),
{
    let s = seg.as_str();
    let n = s.unicode_len();
    if n == 0 {
        return false;
    }
    if n == 1 && s.get_char(0) == '.' {
        proof {
            assert(seg@ =~= seq!['.']);
        }
        return false;
    }
    if n == 2 && s.get_char(0) == '.' && s.get_char(1) == '.' {
        proof {
            assert(seg@ =~= seq!['.', '.']);
        }
        return false;
    }
    let mut i: usize = 0;
    while i < n
        invariant
            i <= n,
            n == seg@.len(),
            s@ == seg@,
            forall|k: int| 0 <= k < i ==> seg@[k] != '/',
        decreases n - i,
    {
        if s.get_char(i) == '/' {
            return false;
        }
        i = i + 1;
    }
    proof {
        if seg@ == seq!['.'] {
            assert(seg@.len() == 1 && seg@[0] == '.');
        }
        if seq!['.', '.'] == seg@ {
            assert(seg@.len() == 2 && seg@[0] == '.' && seg@[1] == '.');
        }
        assert(!seg@.contains('/'));
    }
    true
}

/// The model of a `RelativizedPath`: its physical and relative segments.
pub type PathModel = (Seq<Seq<char>>, Seq<Seq<char>>);

/// One entry of the catalogue tree: a directory with its children in
/// filesystem enumeration order, or a video with its sidecar metadata. A
/// video's duration is in milliseconds; its text tracks map language tags
/// (unique keys) to subtitle paths; thumbnails are reserved and stay empty.
pub enum CatalogueItem {
    Directory { name: String, items: Vec<CatalogueItem> },
    Video {
        path: RelativizedPath,
        title: String,
        subtitle: Option<String>,
        duration: u64,
        text_tracks: Vec<(String, RelativizedPath)>,
        thumbnails: Vec<Vec<String>>,
    },
}

/// The invariant of one catalogue item: a video's text tracks form a
/// mapping, so their language tags are unique keys, and its thumbnails stay
/// empty (no code path fills them); a directory's children all hold the
/// invariant.
pub open spec fn item_wf(item: CatalogueItem) -> bool
    decreases item,
{
    match item {
        CatalogueItem::Directory { items, .. } => items_wf(items@),
        CatalogueItem::Video { text_tracks, thumbnails, .. } => {
            &&& (forall|k: int, l: int|
                0 <= k < l < text_tracks@.len() ==> text_tracks@[k].0@ != text_tracks@[l].0@)
            &&& thumbnails@.len() == 0
        },
    }
}

/// Whether every item of a sequence holds the catalogue invariant.
pub open spec fn items_wf(items: Seq<CatalogueItem>) -> bool
    decreases items,
{
    items.len() == 0 || (item_wf(items[0]) && items_wf(items.drop_first()))
}

/// The paths one catalogue item contributes to the served-set: a video's
/// primary path and every one of its text-track paths; a directory only what
/// its children contribute, never its own name; thumbnails never.
pub open spec fn item_served_paths(item: CatalogueItem) -> Seq<PathModel>
    decreases item,
{
    match item {
        CatalogueItem::Directory { items, .. } => items_served_paths(items@),
        CatalogueItem::Video { path, text_tracks, .. } => seq![path.deep_view()]
            + text_tracks.deep_view().map_values(|t: (Seq<char>, PathModel)| t.1),
    }
}

/// The served-set contributions of a sequence of catalogue items, in order.
pub open spec fn items_served_paths(items: Seq<CatalogueItem>) -> Seq<PathModel>
    decreases items,
{
    if items.len() == 0 {
        Seq::empty()
    } else {
        item_served_paths(items[0]) + items_served_paths(items.drop_first())
    }
}

pub proof fn lemma_items_served_paths_append(a: Seq<CatalogueItem>, b: Seq<CatalogueItem>)
    ensures
        items_served_paths(a + b) == items_served_paths(a) + items_served_paths(b),
    decreases a.len(),
{
    if a.len() == 0 {
        assert(a + b =~= b);
        assert(items_served_paths(a) + items_served_paths(b) =~= items_served_paths(b));
    } else {
        lemma_items_served_paths_append(a.drop_first(), b);
        assert((a + b).drop_first() =~= a.drop_first() + b);
        assert((a + b)[0] == a[0]);
        assert(items_served_paths(a) + items_served_paths(b) =~= item_served_paths(a[0])
            + (items_served_paths(a.drop_first()) + items_served_paths(b)));
    }
}

/// Appends copies of served paths.
fn push_paths(out: &mut Vec<RelativizedPath>, mut add: Vec<RelativizedPath>)
    ensures
        final(out).deep_view() == old(out).deep_view() + add.deep_view(),
{
    let ghost gadd = add.deep_view();
    let ghost gaddv = add@;
    let ghost gold = old(out).deep_view();
    out.append(&mut add);
    proof {
        assert forall|k: int| 0 <= k < out.deep_view().len() implies out.deep_view()[k] == (gold
            + gadd)[k] by {
            if k < gold.len() {
                assert(out@[k] == old(out)@[k]);
            } else {
                assert(out@[k] == gaddv[k - gold.len()]);
            }
        }
        assert(out.deep_view() =~= gold + gadd);
    }
}

/// `s` with every later duplicate dropped: the first occurrence of each
/// element is kept, in order.
pub open spec fn first_occurrence_dedup(s: Seq<PathModel>) -> Seq<PathModel>
    decreases s.len(),
{
    if s.len() == 0 {
        Seq::empty()
    } else if s.drop_last().contains(s.last()) {
        first_occurrence_dedup(s.drop_last())
    } else {
        first_occurrence_dedup(s.drop_last()).push(s.last())
    }
}

/// Dropping later duplicates keeps membership unchanged.
pub proof fn lemma_dedup_membership(s: Seq<PathModel>, x: PathModel)
    ensures
        first_occurrence_dedup(s).contains(x) <==> s.contains(x),
    decreases s.len(),
{
    if s.len() > 0 {
        let d = s.drop_last();
        let l = s.last();
        let r = first_occurrence_dedup(d);
        lemma_dedup_membership(d, x);
        assert(s.contains(x) <==> (d.contains(x) || x == l)) by {
            if s.contains(x) {
                let i = choose|i: int| 0 <= i < s.len() && s[i] == x;
                if i < s.len() - 1 {
                    assert(d[i] == x);
                }
            }
            if d.contains(x) {
                let i = choose|i: int| 0 <= i < d.len() && d[i] == x;
                assert(s[i] == x);
            }
            if x == l {
                assert(s[s.len() - 1] == x);
            }
        }
        if d.contains(l) {
            if x == l {
                assert(d.contains(x));
            }
        } else {
            assert(r.push(l).contains(x) <==> (r.contains(x) || x == l)) by {
                if r.contains(x) {
                    let i = choose|i: int| 0 <= i < r.len() && r[i] == x;
                    assert(r.push(l)[i] == x);
                }
                if x == l {
                    assert(r.push(l)[r.len() as int] == x);
                }
                if r.push(l).contains(x) {
                    let i = choose|i: int| 0 <= i < r.push(l).len() && r.push(l)[i] == x;
                    if i < r.len() {
                        assert(r[i] == x);
                    }
                }
            }
        }
    }
}

/// Dropping later duplicates leaves the elements pairwise distinct.
pub proof fn lemma_dedup_distinct(s: Seq<PathModel>)
    ensures
        forall|k: int, l: int|
            0 <= k < l < first_occurrence_dedup(s).len() ==> first_occurrence_dedup(s)[k]
                != first_occurrence_dedup(s)[l],
    decreases s.len(),
{
    if s.len() > 0 {
        let d = s.drop_last();
        lemma_dedup_distinct(d);
        if !d.contains(s.last()) {
            let r = first_occurrence_dedup(d);
            lemma_dedup_membership(d, s.last());
            assert forall|k: int| 0 <= k < r.len() implies r[k] != s.last() by {
                if r[k] == s.last() {
                    assert(r.contains(s.last()));
                }
            }
        }
    }
}

/// Whether two segment vectors hold the same text.
fn segments_equal(a: &Vec<String>, b: &Vec<String>) -> (r: bool)
    ensures
        r == (a.deep_view() == b.deep_view()),
{
    if a.len() != b.len() {
        proof {
            if a.deep_view() == b.deep_view() {
                assert(a.deep_view().len() == a@.len());
                assert(b.deep_view().len() == b@.len());
            }
        }
        return false;
    }
    let mut i: usize = 0;
    while i < a.len()
        invariant
            i <= a@.len(),
            a@.len() == b@.len(),
            forall|k: int| 0 <= k < i ==> a.deep_view()[k] == b.deep_view()[k],
        decreases a@.len() - i,
    {
        if !a[i].eq(&b[i]) {
            proof {
                if a.deep_view() == b.deep_view() {
                    assert(a.deep_view()[i as int] == b.deep_view()[i as int]);
                }
            }
            return false;
        }
        proof {
            assert(a.deep_view()[i as int] == a@[i as int]@);
            assert(b.deep_view()[i as int] == b@[i as int]@);
        }
        i = i + 1;
    }
    proof {
        assert(a.deep_view() =~= b.deep_view());
    }
    true
}

/// Whether two relativized paths hold the same physical and relative text.
fn paths_equal(a: &RelativizedPath, b: &RelativizedPath) -> (r: bool)
    ensures
        r == (a.deep_view() == b.deep_view()),
{
    segments_equal(&a.path, &b.path) && segments_equal(&a.relative_path, &b.relative_path)
}

/// Flattens the catalogue, in order and with duplicates kept: every video's
/// primary path and every one of its text-track paths. Directory names and
/// thumbnails contribute nothing.
fn collect_served_paths(catalogue: &Vec<CatalogueItem>) -> (r: Vec<RelativizedPath>)
    ensures
        r.deep_view() == items_served_paths(catalogue@),
    decreases catalogue@,
{
    let mut out: Vec<RelativizedPath> = Vec::new();
    let mut i: usize = 0;
    while i < catalogue.len()
        invariant
            i <= catalogue@.len(),
            out.deep_view() =~= items_served_paths(catalogue@.take(i as int)),
        decreases catalogue@.len() - i,
    {
        let ghost prefix = items_served_paths(catalogue@.take(i as int));
        match &catalogue[i] {
            CatalogueItem::Directory { items, .. } => {
                proof {
                    assert(decreases_to!(catalogue@ => catalogue@[i as int]));
                    assert(decreases_to!(catalogue@[i as int] => items@));
                }
                let sub = collect_served_paths(items);
                push_paths(&mut out, sub);
            },
            CatalogueItem::Video { path, text_tracks, .. } => {
                let ghost gitem = catalogue@[i as int];
                let ghost tracks = text_tracks.deep_view().map_values(
                    |t: (Seq<char>, PathModel)| t.1,
                );
                let ghost gout0 = out.deep_view();
                let ghost gout0v = out@;
                let path_copy = path.duplicate();
                let ghost gp = path_copy.deep_view();
                out.push(path_copy);
                proof {
                    assert forall|j: int| 0 <= j < out.deep_view().len() implies out.deep_view()[j]
                        == gout0.push(gp)[j] by {
                        if j < gout0.len() {
                            assert(out@[j] == gout0v[j]);
                        }
                    }
                    assert(out.deep_view() =~= gout0.push(gp));
                    assert(gp == gitem->Video_path.deep_view());
                    assert forall|j: int| 0 <= j < text_tracks@.len() implies tracks[j]
                        == text_tracks@[j].1.deep_view() by {
                        assert(text_tracks.deep_view()[j] == text_tracks@[j].deep_view());
                        assert(tracks[j] == text_tracks.deep_view()[j].1);
                    }
                    assert(out.deep_view() =~= prefix + seq![gp] + tracks.take(0));
                }
                let mut k: usize = 0;
                while k < text_tracks.len()
                    invariant
                        k <= text_tracks@.len(),
                        gitem == catalogue@[i as int],
                        gitem matches CatalogueItem::Video { .. },
                        gp == gitem->Video_path.deep_view(),
                        tracks == text_tracks.deep_view().map_values(
                            |t: (Seq<char>, PathModel)| t.1,
                        ),
                        tracks.len() == text_tracks@.len(),
                        forall|j: int|
                            0 <= j < text_tracks@.len() ==> tracks[j]
                                == text_tracks@[j].1.deep_view(),
                        out.deep_view() =~= prefix + seq![gp] + tracks.take(k as int),
                        text_tracks@ == gitem->Video_text_tracks@,
                    decreases text_tracks@.len() - k,
                {
                    let ghost gout = out.deep_view();
                    let ghost goutv = out@;
                    let track_copy = text_tracks[k].1.duplicate();
                    let ghost gc = track_copy.deep_view();
                    out.push(track_copy);
                    proof {
                        assert forall|j: int| 0 <= j < out.deep_view().len() implies out
                            .deep_view()[j] == gout.push(gc)[j] by {
                            if j < gout.len() {
                                assert(out@[j] == goutv[j]);
                            }
                        }
                        assert(out.deep_view() =~= gout.push(gc));
                        assert(gc == tracks[k as int]);
                        assert(tracks.take(k + 1) =~= tracks.take(k as int).push(
                            tracks[k as int],
                        ));
                        assert(out.deep_view() =~= prefix + seq![gp] + tracks.take(k + 1));
                    }
                    k = k + 1;
                }
                proof {
                    assert(tracks.take(text_tracks@.len() as int) =~= tracks);
                    assert(gitem->Video_text_tracks.deep_view() =~= text_tracks.deep_view());
                    assert(item_served_paths(gitem) == seq![gp] + tracks);
                }
            },
        }
        proof {
            let single = seq![catalogue@[i as int]];
            assert(catalogue@.take(i + 1) =~= catalogue@.take(i as int) + single);
            lemma_items_served_paths_append(catalogue@.take(i as int), single);
            assert(single[0] == catalogue@[i as int]);
            assert(single.drop_first() =~= Seq::<CatalogueItem>::empty());
            assert(items_served_paths(Seq::<CatalogueItem>::empty()) =~= Seq::<
                PathModel,
            >::empty());
            assert(items_served_paths(single) =~= item_served_paths(catalogue@[i as int]));
            assert(out.deep_view() =~= items_served_paths(catalogue@.take(i + 1)));
        }
        i = i + 1;
    }
    proof {
        assert(catalogue@.take(catalogue@.len() as int) =~= catalogue@);
    }
    out
}

/// Derives the served-set from the catalogue: every video's primary path
/// and every one of its text-track paths, in catalogue order, each path
/// once (the first occurrence is kept). Directory names and thumbnails
/// contribute nothing. Built exactly once, after the catalogue.
pub fn extract_served_files(catalogue: &Vec<CatalogueItem>) -> (r: Vec<RelativizedPath>)
    ensures
        r.deep_view() == first_occurrence_dedup(items_served_paths(catalogue@)),
        forall|p: PathModel|
            #[trigger] r.deep_view().contains(p) <==> items_served_paths(catalogue@).contains(p),
        forall|k: int, l: int|
            0 <= k < l < r.deep_view().len() ==> r.deep_view()[k] != r.deep_view()[l],
{
    let all = collect_served_paths(catalogue);
    let ghost gall = all.deep_view();
    let mut out: Vec<RelativizedPath> = Vec::new();
    let mut i: usize = 0;
    while i < all.len()
        invariant
            i <= all@.len(),
            gall == all.deep_view(),
            gall.len() == all@.len(),
            forall|t: int| 0 <= t < all@.len() ==> gall[t] == all@[t].deep_view(),
            out.deep_view() == first_occurrence_dedup(gall.take(i as int)),
        decreases all@.len() - i,
    {
        let mut found = false;
        let mut j: usize = 0;
        while j < out.len()
            invariant
                j <= out@.len(),
                gall.len() == all@.len(),
                i < all@.len(),
                gall[i as int] == all@[i as int].deep_view(),
                found <==> exists|t: int|
                    0 <= t < j && #[trigger] out.deep_view()[t] == gall[i as int],
            decreases out@.len() - j,
        {
            if paths_equal(&out[j], &all[i]) {
                found = true;
            }
            proof {
                assert(out.deep_view()[j as int] == out@[j as int].deep_view());
            }
            j = j + 1;
        }
        proof {
            assert(found <==> out.deep_view().contains(gall[i as int]));
            lemma_dedup_membership(gall.take(i as int), gall[i as int]);
            assert(gall.take(i + 1).drop_last() =~= gall.take(i as int));
            assert(gall.take(i + 1).last() == gall[i as int]);
        }
        if !found {
            let ghost gout = out.deep_view();
            let ghost goutv = out@;
            let copy = all[i].duplicate();
            let ghost gc = copy.deep_view();
            out.push(copy);
            proof {
                assert forall|t: int| 0 <= t < out.deep_view().len() implies out.deep_view()[t]
                    == gout.push(gc)[t] by {
                    if t < gout.len() {
                        assert(out@[t] == goutv[t]);
                    }
                }
                assert(out.deep_view() =~= gout.push(gc));
                assert(out.deep_view() == first_occurrence_dedup(gall.take(i + 1)));
            }
        } else {
            proof {
                assert(out.deep_view() == first_occurrence_dedup(gall.take(i + 1)));
            }
        }
        i = i + 1;
    }
    proof {
        assert(gall.take(all@.len() as int) =~= gall);
        assert(out.deep_view() == first_occurrence_dedup(items_served_paths(catalogue@)));
        assert forall|p: PathModel| #[trigger] out.deep_view().contains(p)
            <==> items_served_paths(catalogue@).contains(p) by {
            lemma_dedup_membership(items_served_paths(catalogue@), p);
        }
        lemma_dedup_distinct(items_served_paths(catalogue@));
    }
    out
}

/// The sidecar metadata of one video file, as its configuration file gives
/// it: a required title, an optional subtitle line, a required ISO 8601
/// duration string, and an optional text-track language tag.
pub struct SidecarConfig {
    pub title: String,
    pub subtitle: Option<String>,
    pub duration: String,
    pub text_track_language: Option<String>,
}

pub uninterp spec fn iso_duration_hms(s: Seq<char>) -> Option<(u32, u32, u32, u32)>;

/// Relies on iso8601::duration: parses an ISO 8601 duration string; the
/// result depends on the string alone. Yields the hour, minute, second and
/// millisecond components when the string parses to the component form, and
/// nothing when it does not parse or parses to the week form.
#[verifier::external_body]
fn parse_iso_duration_hms(s: &str) -> (r: Option<(u32, u32, u32, u32)>)
    ensures
        r == iso_duration_hms(s@),
{
    match iso8601::duration(s) {
        Ok(iso8601::Duration::YMDHMS { hour, minute, second, millisecond, .. }) => Some(
            (hour, minute, second, millisecond),
        ),
        Ok(iso8601::Duration::Weeks(_)) => None,
        Err(_) => None,
    }
}

/// The milliseconds a duration of `h` hours, `m` minutes, `s` seconds and
/// `ms` milliseconds amounts to.
pub open spec fn duration_millis_spec(h: u32, m: u32, s: u32, ms: u32) -> int {
    h * 3600000 + m * 60000 + s * 1000 + ms
}

/// Converts duration components to total milliseconds.
pub fn duration_millis(h: u32, m: u32, s: u32, ms: u32) -> (r: u64)
    ensures
        r == duration_millis_spec(h, m, s, ms),
{
    (h as u64) * 3600000 + (m as u64) * 60000 + (s as u64) * 1000 + (ms as u64)
}

/// A candidate video file name: `<stem>.mp4` with a non-empty stem.
pub open spec fn is_video_name(name: Seq<char>) -> bool {
    &&& name.len() > 4
    &&& name[name.len() - 4] == '.'
    &&& name[name.len() - 3] == 'm'
    &&& name[name.len() - 2] == 'p'
    &&& name[name.len() - 1] == '4'
}

/// The file name without its extension and without the dot.
pub open spec fn video_stem_of(name: Seq<char>) -> Seq<char> {
    name.take(name.len() - 4)
}

/// The stem of a file name that names a candidate video file, or nothing
/// for any other file name (which the scan silently skips).
pub fn video_stem(name: &String) -> (r: Option<String>)
    ensures
        r is Some <==> is_video_name(name@),
        r matches Some(s) ==> s@ == video_stem_of(name@),
{
    let s = name.as_str();
    let n = s.unicode_len();
    if n <= 4 {
        return None;
    }
    if s.get_char(n - 4) == '.' && s.get_char(n - 3) == 'm' && s.get_char(n - 2) == 'p'
        && s.get_char(n - 1) == '4' {
        let stem = s.substring_char(0, n - 4);
        Some(stem.to_owned())
    } else {
        None
    }
}

/// The name of the sidecar metadata file beside a video file with this stem.
pub fn sidecar_name(stem: &String) -> (r: String)
    ensures
        r@ == stem@ + seq!['.', 't', 'o', 'm', 'l'],
{
    let mut out = stem.clone();
    out.append(".toml");
    proof {
        reveal_strlit(".toml");
        assert(".toml"@ =~= seq!['.', 't', 'o', 'm', 'l']);
    }
    out
}

/// The name of the subtitle file beside a video file with this stem.
pub fn subtitle_name(stem: &String) -> (r: String)
    ensures
        r@ == stem@ + seq!['.', 'v', 't', 't'],
{
    let mut out = stem.clone();
    out.append(".vtt");
    proof {
        reveal_strlit(".vtt");
        assert(".vtt"@ =~= seq!['.', 'v', 't', 't']);
    }
    out
}

/// The language tag a text track is keyed by when the sidecar names none.
pub open spec fn default_language() -> Seq<char> {
    seq!['e', 'n']
}

/// The language tag for a video's text track: the configured one, or the
/// default tag.
pub open spec fn track_language(config: SidecarConfig) -> Seq<char> {
    match config.text_track_language {
        Some(l) => l@,
        None => default_language(),
    }
}

/// The catalogue entry for one candidate video file, built from its sidecar
/// metadata, or nothing when the entry must be silently skipped: when the
/// sidecar is absent or did not deserialize (`config` is `None`), or when
/// its duration string does not resolve to hour, minute, second and
/// millisecond components. No partial entry is ever produced.
pub fn video_entry(
    root_path: &Vec<String>,
    video_path: &Vec<String>,
    subtitle_path: Option<&Vec<String>>,
    config: Option<&SidecarConfig>,
) -> (r: Option<CatalogueItem>)
    requires
        root_path@.len() <= video_path@.len(),
        forall|i: int|
            0 <= i < root_path@.len() ==> root_path.deep_view()[i] == video_path.deep_view()[i],
        subtitle_path matches Some(sp) ==> root_path@.len() <= sp@.len() && (forall|i: int|
            0 <= i < root_path@.len() ==> root_path.deep_view()[i] == sp.deep_view()[i]),
    ensures
        r is Some <==> (config matches Some(c) && iso_duration_hms(c.duration@) is Some),
        r matches Some(item) ==> item_wf(item),
        r matches Some(item) ==> {
            &&& config matches Some(c)
            &&& item matches CatalogueItem::Video {
                path,
                title,
                subtitle,
                duration,
                text_tracks,
                thumbnails,
            }
            &&& path.deep_view().0 == video_path.deep_view()
            &&& path.deep_view().1 == video_path.deep_view().skip(root_path@.len() as int)
            &&& title@ == c.title@
            &&& (match (subtitle, c.subtitle) {
                (Some(a), Some(b)) => a@ == b@,
                (None, None) => true,
                _ => false,
            })
            &&& duration == duration_millis_spec(
                iso_duration_hms(c.duration@)->Some_0.0,
                iso_duration_hms(c.duration@)->Some_0.1,
                iso_duration_hms(c.duration@)->Some_0.2,
                iso_duration_hms(c.duration@)->Some_0.3,
            )
            &&& (match subtitle_path {
                Some(sp) => {
                    &&& text_tracks@.len() == 1
                    &&& text_tracks@[0].0@ == track_language(*c)
                    &&& text_tracks@[0].1.deep_view().0 == sp.deep_view()
                    &&& text_tracks@[0].1.deep_view().1 == sp.deep_view().skip(
                        root_path@.len() as int,
                    )
                },
                None => text_tracks@.len() == 0,
            })
            &&& thumbnails@.len() == 0
        },
{
    let c = match config {
        None => {
            return None;
        },
        Some(c) => c,
    };
    let (h, m, s, ms) = match parse_iso_duration_hms(c.duration.as_str()) {
        None => {
            return None;
        },
        Some(parts) => parts,
    };
    let duration = duration_millis(h, m, s, ms);
    let mut text_tracks: Vec<(String, RelativizedPath)> = Vec::new();
    match subtitle_path {
        Some(sp) => {
            let language = match &c.text_track_language {
                Some(l) => l.clone(),
                None => {
                    let tag: String = "en".to_owned();
                    proof {
                        reveal_strlit("en");
                        assert("en"@ =~= default_language());
                    }
                    tag
                },
            };
            text_tracks.push((language, RelativizedPath::new(root_path, sp)));
        },
        None => {},
    }
    let subtitle = match &c.subtitle {
        Some(s) => Some(s.clone()),
        None => None,
    };
    Some(
        CatalogueItem::Video {
            path: RelativizedPath::new(root_path, video_path),
            title: c.title.clone(),
            subtitle,
            duration,
            text_tracks,
            thumbnails: Vec::new(),
        },
    )
}

/// Looks a requested relative path up in the served-set: the first entry
/// whose client-visible identifier equals the request, if any. A request
/// that matches no entry finds nothing, whatever exists on disk.
pub fn find_served<'a>(served: &'a Vec<RelativizedPath>, requested: &String) -> (r: Option<
    &'a RelativizedPath,
>)
    ensures
        match r {
            Some(p) => exists|i: int|
                {
                    &&& 0 <= i < served@.len()
                    &&& served@[i] == *p
                    &&& join_segments(served@[i].deep_view().1) == requested@
                    &&& forall|j: int|
                        0 <= j < i ==> join_segments(#[trigger] served@[j].deep_view().1)
                            != requested@
                },
            None => forall|i: int|
                0 <= i < served@.len() ==> join_segments(#[trigger] served@[i].deep_view().1)
                    != requested@,
        },
{
    let mut i: usize = 0;
    while i < served.len()
        invariant
            i <= served@.len(),
            forall|j: int|
                0 <= j < i ==> join_segments(#[trigger] served@[j].deep_view().1) != requested@,
        decreases served@.len() - i,
    {
        let url = join_path_segments(&served[i].relative_path);
        if url.eq(requested) {
            return Some(&served[i]);
        }
        i = i + 1;
    }
    None
}

} // verus!
