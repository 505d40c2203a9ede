//! Grouping the HSD files of a directory: by observation time, then by
//! segment and band.

use crate::names::{
    field, hsd_name_accepted, unicode_uppercase, name_segment, name_timestamp, scan_hsd_file_name, sep, NameScan,
};
use crate::order::{
    insert_sorted_unique, lemma_sorted_same_texts, lemma_text_lt_order, strictly_sorted, text_lt, texts,
};
use std::path::PathBuf;
use vstd::prelude::*;
use vstd::utf8::encode_utf8;

verus! {

/// `std::path::PathBuf`, carried through as the location of a file.
#[verifier::external_type_specification]
#[verifier::external_body]
pub struct ExPathBuf(PathBuf);

/// One of the ten segments of a full disk: for each band, in the order of
/// the band names, the file that holds it, if any.
#[derive(Debug)]
pub struct SegmentBlock {
    pub segment_index: usize,
    pub files: Vec<Option<PathBuf>>,
}

/// The files of one observation time: the sorted band names and the ten
/// segments.
#[derive(Debug)]
pub struct FullDiskRawDataStructure {
    pub band_names: Vec<String>,
    pub segments: Vec<SegmentBlock>,
}

/// What the name of a full-disk HSD file tells: its band (such as "B01"),
/// its segment number (1 to 10) and its observation time ("YYYYMMDD_HHMM").
#[derive(Debug)]
pub struct HsdFileInfo {
    pub path: PathBuf,
    pub band: String,
    pub segment: usize,
    pub timestamp: String,
}

/// Why no files could be organized.
#[derive(Debug, Clone, Copy, PartialEq, Eq)]
pub enum OrganizeError {
    /// None of the files is a full-disk HSD file.
    NoValidFiles,
}

/// The text of the last name component of a path, with invalid UTF-8
/// replaced, or `None` when the path has no such component.
pub uninterp spec fn path_file_name_text(p: PathBuf) -> Option<Seq<char>>;

/// The last name component of a path, converted to text with invalid
/// UTF-8 replaced (`Path::file_name`, then `OsStr::to_string_lossy`; the
/// second converts the `OsStr` that the first returns, a type that cannot be
/// named here).  Its result, a function of the path alone, is named
/// `path_file_name_text`; nothing more is claimed of it.
#[verifier::external_body]
fn file_name_lossy(path: &PathBuf) -> (r: Option<String>)
    ensures
        r matches Some(s) ==> path_file_name_text(*path) == Some(s@),
        r is None ==> path_file_name_text(*path) is None,
{
    match path.file_name() {
        Some(name) => Some(name.to_string_lossy().into_owned()),
        None => None,
    }
}

/// `info` holds what an accepted upper-cased file name `n` gives.
pub open spec fn info_from_name(info: HsdFileInfo, n: Seq<u8>) -> bool {
    &&& hsd_name_accepted(n)
    &&& encode_utf8(info.band@) == field(n, 4)
    &&& info.segment == name_segment(n)
    &&& encode_utf8(info.timestamp@) == name_timestamp(n)
}

/// The UTF-8 bytes of the upper-cased file name of a path, if it has one.
pub open spec fn upper_name_bytes(p: PathBuf) -> Option<Seq<u8>> {
    match path_file_name_text(p) {
        Some(t) => Some(encode_utf8(unicode_uppercase(t))),
        None => None,
    }
}

/// The path has a file name that, upper-cased, is that of a full-disk HSD
/// file.
pub open spec fn path_accepted(p: PathBuf) -> bool {
    upper_name_bytes(p) matches Some(n) && hsd_name_accepted(n)
}

/// `info` describes the file at `p`: its path and what its upper-cased
/// file name gives.
pub open spec fn info_of_path(info: HsdFileInfo, p: PathBuf) -> bool {
    &&& info.path == p
    &&& upper_name_bytes(p) matches Some(n)
    &&& info_from_name(info, n)
    &&& 1 <= info.segment <= 10
}

impl HsdFileInfo {
    /// The band, segment and time of a file from its upper-cased name, when
    /// that is the name of a full-disk HSD file; `None` for other names, for
    /// paths without a name, and for names whose segment digits would be cut
    /// inside a character.
    pub fn try_from_path(path: PathBuf) -> (r: Option<HsdFileInfo>)
        ensures
            r is Some <==> path_accepted(path),
            r matches Some(info) ==> info_of_path(info, path),
    {
        let name = match file_name_lossy(&path) {
            Some(name) => name,
            None => return None,
        };
        let upper = crate::names::to_uppercase(name.as_str());
        match scan_hsd_file_name(upper.as_str()) {
            NameScan::Accepted { band, segment, timestamp } => {
                let info = HsdFileInfo { path, band, segment, timestamp };
                assert(info_from_name(info, encode_utf8(upper@)));
                Some(info)
            },
            _ => None,
        }
    }
}

/// The bands of a list of files.
pub open spec fn file_bands(files: Seq<HsdFileInfo>) -> Seq<Seq<char>> {
    files.map_values(|f: HsdFileInfo| f.band@)
}

/// Index of the last file of `band` and `segment`, or -1 when none is.
pub open spec fn last_match(files: Seq<HsdFileInfo>, band: Seq<char>, segment: int) -> int
    decreases files.len(),
{
    if files.len() == 0 {
        -1
    } else if files.last().band@ == band && files.last().segment == segment {
        files.len() - 1
    } else {
        last_match(files.drop_last(), band, segment)
    }
}

/// `last_match` is -1 or the index of a file of the band and segment.
proof fn lemma_last_match_bounds(files: Seq<HsdFileInfo>, band: Seq<char>, segment: int)
    ensures
        -1 <= last_match(files, band, segment) < files.len(),
        last_match(files, band, segment) >= 0 ==> files[last_match(files, band, segment)].band@
            == band && files[last_match(files, band, segment)].segment == segment,
    decreases files.len(),
{
    if files.len() > 0 {
        lemma_last_match_bounds(files.drop_last(), band, segment);
        let j = last_match(files.drop_last(), band, segment);
        if j >= 0 {
            assert(files.drop_last()[j] == files[j]);
        }
    }
}

/// The path recorded for `band` in `segment`: that of the last such file.
pub open spec fn slot_of(files: Seq<HsdFileInfo>, band: Seq<char>, segment: int) -> Option<PathBuf> {
    let j = last_match(files, band, segment);
    if j < 0 {
        None
    } else {
        Some(files[j].path)
    }
}

/// `fd` arranges `files`: the band names are the distinct bands, sorted;
/// there are ten segments numbered 1 to 10, each with one entry per band,
/// holding the path of the last file of that band and segment.
pub open spec fn full_disk_from(fd: FullDiskRawDataStructure, files: Seq<HsdFileInfo>) -> bool {
    &&& strictly_sorted(texts(fd.band_names@))
    &&& forall|x: Seq<char>|
        texts(fd.band_names@).contains(x) <==> file_bands(files).contains(x)
    &&& fd.segments@.len() == 10
    &&& forall|s: int|
        0 <= s < 10 ==> {
            &&& (#[trigger] fd.segments@[s]).segment_index == s + 1
            &&& fd.segments@[s].files@.len() == fd.band_names@.len()
            &&& forall|k: int|
                0 <= k < fd.band_names@.len() ==> #[trigger] fd.segments@[s].files@[k] == slot_of(
                    files,
                    fd.band_names@[k]@,
                    s + 1,
                )
        }
}

/// The position of a text in a list of strings that holds it.
fn text_index(bands: &Vec<String>, band: &String) -> (r: usize)
    requires
        texts(bands@).contains(band@),
    ensures
        r < bands@.len(),
        bands@[r as int]@ == band@,
{
    let mut i: usize = 0;
    while i < bands.len()
        invariant
            i <= bands@.len(),
            texts(bands@).contains(band@),
            forall|j: int| 0 <= j < i ==> bands@[j]@ != band@,
        decreases bands.len() - i,
    {
        if bands[i] == *band {
            return i;
        }
        i = i + 1;
    }
    proof {
        let j = choose|j: int| 0 <= j < texts(bands@).len() && texts(bands@)[j] == band@;
        assert(bands@[j]@ == band@);
    }
    i
}

/// Distinct positions of a sorted list hold distinct texts.
proof fn lemma_sorted_distinct(t: Seq<Seq<char>>, a: int, b: int)
    requires
        strictly_sorted(t),
        0 <= a < t.len(),
        0 <= b < t.len(),
        a != b,
    ensures
        t[a] != t[b],
{
    lemma_text_lt_order(t[a], t[b], t[a]);
    if a < b {
        assert(text_lt(t[a], t[b]));
    } else {
        assert(text_lt(t[b], t[a]));
    }
    lemma_text_lt_order(t[b], t[a], t[b]);
}

impl FullDiskRawDataStructure {
    /// Arranges files of one observation time: the distinct bands, sorted,
    /// and for each of the ten segments the path of each band's file; when
    /// several files have the same band and segment the last one is kept,
    /// and files of a segment beyond 10 are left out.
    pub fn build_from_files(files: Vec<HsdFileInfo>) -> (r: FullDiskRawDataStructure)
        requires
            forall|i: int| 0 <= i < files@.len() ==> (#[trigger] files@[i]).segment >= 1,
        ensures
            full_disk_from(r, files@),
    {
        let ghost orig = files@;
        let n = files.len();
        let mut bands: Vec<String> = Vec::new();
        let mut i: usize = 0;
        while i < n
            invariant
                n == files@.len(),
                i <= n,
                strictly_sorted(texts(bands@)),
                forall|x: Seq<char>|
                    texts(bands@).contains(x) <==> file_bands(files@.take(i as int)).contains(x),
            decreases n - i,
        {
            let b = files[i].band.clone();
            insert_sorted_unique(&mut bands, b);
            proof {
                let prev = file_bands(files@.take(i as int));
                let next = file_bands(files@.take(i + 1));
                assert(next =~= prev.push(files@[i as int].band@));
                assert forall|x: Seq<char>| next.contains(x) <==> (prev.contains(x) || x
                    == files@[i as int].band@) by {
                    if next.contains(x) {
                        let k = choose|k: int| 0 <= k < next.len() && next[k] == x;
                        if k < prev.len() {
                            assert(prev[k] == x);
                        }
                    }
                    if prev.contains(x) {
                        let k = choose|k: int| 0 <= k < prev.len() && prev[k] == x;
                        assert(next[k] == x);
                    }
                    if x == files@[i as int].band@ {
                        assert(next[i as int] == x);
                    }
                }
            }
            i = i + 1;
        }
        assert(files@.take(n as int) =~= files@);
        let nb = bands.len();
        let mut segments: Vec<SegmentBlock> = Vec::new();
        let mut s: usize = 0;
        while s < 10
            invariant
                s <= 10,
                segments@.len() == s,
                forall|t: int|
                    0 <= t < s ==> {
                        &&& (#[trigger] segments@[t]).segment_index == t + 1
                        &&& segments@[t].files@.len() == nb
                        &&& forall|k: int| 0 <= k < nb ==> #[trigger] segments@[t].files@[k] is None
                    },
            decreases 10 - s,
        {
            let mut slots: Vec<Option<PathBuf>> = Vec::new();
            let mut k: usize = 0;
            while k < nb
                invariant
                    k <= nb,
                    slots@.len() == k,
                    forall|j: int| 0 <= j < k ==> #[trigger] slots@[j] is None,
                decreases nb - k,
            {
                slots.push(None);
                k = k + 1;
            }
            segments.push(SegmentBlock { segment_index: s + 1, files: slots });
            s = s + 1;
        }
        let mut rest = files;
        let mut i: usize = 0;
        while i < n
            invariant
                n == orig.len(),
                i <= n,
                rest@ == orig.subrange(i as int, n as int),
                forall|j: int| 0 <= j < orig.len() ==> (#[trigger] orig[j]).segment >= 1,
                bands@.len() == nb,
                strictly_sorted(texts(bands@)),
                forall|x: Seq<char>| texts(bands@).contains(x) <==> file_bands(orig).contains(x),
                segments@.len() == 10,
                forall|t: int|
                    0 <= t < 10 ==> {
                        &&& (#[trigger] segments@[t]).segment_index == t + 1
                        &&& segments@[t].files@.len() == nb
                        &&& forall|k: int|
                            0 <= k < nb ==> #[trigger] segments@[t].files@[k] == slot_of(
                                orig.take(i as int),
                                bands@[k]@,
                                t + 1,
                            )
                    },
            decreases n - i,
        {
            let f = rest.remove(0);
            assert(f == orig[i as int]);
            assert(file_bands(orig)[i as int] == f.band@);
            assert(file_bands(orig).contains(f.band@));
            let k = text_index(&bands, &f.band);
            let ghost prev = orig.take(i as int);
            let ghost next = orig.take(i + 1);
            assert(next.drop_last() =~= prev);
            assert(next.last() == f);
            let ghost old_segments = segments@;
            let row = f.segment - 1;
            let ghost fpath = f.path;
            if row < 10 {
                let mut seg = segments.remove(row);
                assert(seg == old_segments[row as int]);
                seg.files.set(k, Some(f.path));
                assert(seg.files@ == old_segments[row as int].files@.update(k as int, Some(fpath)));
                assert(seg.segment_index == old_segments[row as int].segment_index);
                segments.insert(row, seg);
                assert(segments@ =~= old_segments.update(row as int, seg));
            }
            proof {
                assert forall|t: int| 0 <= t < 10 implies {
                    &&& (#[trigger] segments@[t]).segment_index == t + 1
                    &&& segments@[t].files@.len() == nb
                    &&& forall|kk: int|
                        0 <= kk < nb ==> #[trigger] segments@[t].files@[kk] == slot_of(
                            next,
                            bands@[kk]@,
                            t + 1,
                        )
                } by {
                    assert forall|kk: int| 0 <= kk < nb implies #[trigger] segments@[t].files@[kk]
                        == slot_of(next, bands@[kk]@, t + 1) by {
                        if row < 10 && t != row {
                            assert(segments@[t] == old_segments[t]);
                        }
                        if row < 10 && t == row {
                            assert(segments@[t].files@ == old_segments[t].files@.update(
                                k as int,
                                Some(fpath),
                            ));
                        }
                        if row >= 10 {
                            assert(segments@ == old_segments);
                        }
                        if t == row && kk == k {
                            assert(last_match(next, bands@[kk]@, t + 1) == i);
                        } else {
                            if kk != k {
                                lemma_sorted_distinct(texts(bands@), kk, k as int);
                                assert(texts(bands@)[kk] == bands@[kk]@);
                                assert(texts(bands@)[k as int] == bands@[k as int]@);
                            }
                            assert(last_match(next, bands@[kk]@, t + 1) == last_match(
                                prev,
                                bands@[kk]@,
                                t + 1,
                            ));
                            lemma_last_match_bounds(prev, bands@[kk]@, t + 1);
                            let jj = last_match(prev, bands@[kk]@, t + 1);
                            if jj >= 0 {
                                assert(next[jj] == prev[jj]);
                            }
                        }
                    }
                }
            }
            i = i + 1;
        }
        assert(orig.take(n as int) =~= orig);
        FullDiskRawDataStructure { band_names: bands, segments }
    }
}

/// The observation times of a list of files.
pub open spec fn file_times(files: Seq<HsdFileInfo>) -> Seq<Seq<char>> {
    files.map_values(|f: HsdFileInfo| f.timestamp@)
}

/// The files of observation time `t`, in their order.
pub open spec fn files_at_time(files: Seq<HsdFileInfo>, t: Seq<char>) -> Seq<HsdFileInfo> {
    files.filter(|f: HsdFileInfo| f.timestamp@ == t)
}

/// The observation times of a list of groups.
pub open spec fn group_times(groups: Seq<(String, FullDiskRawDataStructure)>) -> Seq<Seq<char>> {
    groups.map_values(|g: (String, FullDiskRawDataStructure)| g.0@)
}

/// `groups` arranges `files` by observation time: one group per distinct
/// time, sorted by time, each arranging the files of its time.
pub open spec fn organized_by_time(
    groups: Seq<(String, FullDiskRawDataStructure)>,
    files: Seq<HsdFileInfo>,
) -> bool {
    &&& strictly_sorted(group_times(groups))
    &&& forall|x: Seq<char>| group_times(groups).contains(x) <==> file_times(files).contains(x)
    &&& forall|g: int|
        0 <= g < groups.len() ==> full_disk_from(
            #[trigger] groups[g].1,
            files_at_time(files, groups[g].0@),
        )
}

/// Arranges file descriptions by observation time, in time order; fails
/// when there are none.
pub fn organize_hsd_file_infos(infos: Vec<HsdFileInfo>) -> (r: Result<
    Vec<(String, FullDiskRawDataStructure)>,
    OrganizeError,
>)
    requires
        forall|i: int| 0 <= i < infos@.len() ==> (#[trigger] infos@[i]).segment >= 1,
    ensures
        match r {
            Ok(groups) => infos@.len() > 0 && organized_by_time(groups@, infos@),
            Err(err) => infos@.len() == 0 && err == OrganizeError::NoValidFiles,
        },
{
    let n = infos.len();
    if n == 0 {
        return Err(OrganizeError::NoValidFiles);
    }
    let ghost orig = infos@;
    let mut stamps: Vec<String> = Vec::new();
    let mut i: usize = 0;
    while i < n
        invariant
            n == infos@.len(),
            i <= n,
            strictly_sorted(texts(stamps@)),
            forall|x: Seq<char>|
                texts(stamps@).contains(x) <==> file_times(infos@.take(i as int)).contains(x),
        decreases n - i,
    {
        let t = infos[i].timestamp.clone();
        insert_sorted_unique(&mut stamps, t);
        proof {
            let prev = file_times(infos@.take(i as int));
            let next = file_times(infos@.take(i + 1));
            assert(next =~= prev.push(infos@[i as int].timestamp@));
            assert forall|x: Seq<char>| next.contains(x) <==> (prev.contains(x) || x
                == infos@[i as int].timestamp@) by {
                if next.contains(x) {
                    let k = choose|k: int| 0 <= k < next.len() && next[k] == x;
                    if k < prev.len() {
                        assert(prev[k] == x);
                    }
                }
                if prev.contains(x) {
                    let k = choose|k: int| 0 <= k < prev.len() && prev[k] == x;
                    assert(next[k] == x);
                }
                if x == infos@[i as int].timestamp@ {
                    assert(next[i as int] == x);
                }
            }
        }
        i = i + 1;
    }
    assert(infos@.take(n as int) =~= infos@);
    let m = stamps.len();
    let ghost st = stamps@;
    let mut groups: Vec<Vec<HsdFileInfo>> = Vec::new();
    let mut g: usize = 0;
    while g < m
        invariant
            g <= m,
            groups@.len() == g,
            forall|j: int| 0 <= j < g ==> (#[trigger] groups@[j])@.len() == 0,
        decreases m - g,
    {
        groups.push(Vec::new());
        g = g + 1;
    }
    proof {
        assert forall|j: int| 0 <= j < m implies (#[trigger] groups@[j])@ == files_at_time(
            orig.take(0),
            st[j]@,
        ) by {
            assert(orig.take(0) =~= Seq::<HsdFileInfo>::empty());
            assert(groups@[j]@ =~= Seq::<HsdFileInfo>::empty());
        }
    }
    let mut rest = infos;
    let mut i: usize = 0;
    while i < n
        invariant
            n == orig.len(),
            i <= n,
            rest@ == orig.subrange(i as int, n as int),
            stamps@ == st,
            m == st.len(),
            strictly_sorted(texts(st)),
            forall|x: Seq<char>| texts(st).contains(x) <==> file_times(orig).contains(x),
            groups@.len() == m,
            forall|j: int|
                0 <= j < m ==> (#[trigger] groups@[j])@ == files_at_time(
                    orig.take(i as int),
                    st[j]@,
                ),
        decreases n - i,
    {
        let f = rest.remove(0);
        assert(f == orig[i as int]);
        assert(file_times(orig)[i as int] == f.timestamp@);
        assert(file_times(orig).contains(f.timestamp@));
        let k = text_index(&stamps, &f.timestamp);
        let ghost prev = orig.take(i as int);
        let ghost next = orig.take(i + 1);
        assert(next.drop_last() =~= prev);
        assert(next.last() == f);
        let ghost old_groups = groups@;
        let mut grp = groups.remove(k);
        assert(grp == old_groups[k as int]);
        grp.push(f);
        groups.insert(k, grp);
        proof {
            assert(groups@ =~= old_groups.update(k as int, grp));
            assert forall|j: int| 0 <= j < m implies (#[trigger] groups@[j])@ == files_at_time(
                next,
                st[j]@,
            ) by {
                reveal_with_fuel(Seq::filter, 1);
                if j == k {
                    assert(files_at_time(next, st[j]@) == files_at_time(prev, st[j]@).push(f));
                } else {
                    lemma_sorted_distinct(texts(st), j, k as int);
                    assert(texts(st)[j] == st[j]@);
                    assert(texts(st)[k as int] == st[k as int]@);
                    assert(files_at_time(next, st[j]@) == files_at_time(prev, st[j]@));
                }
            }
        }
        i = i + 1;
    }
    assert(orig.take(n as int) =~= orig);
    let ghost all_groups = groups@;
    let mut result: Vec<(String, FullDiskRawDataStructure)> = Vec::new();
    let mut g: usize = 0;
    while g < m
        invariant
            g <= m,
            m == st.len(),
            stamps@ == st.subrange(g as int, m as int),
            groups@ == all_groups.subrange(g as int, m as int),
            all_groups.len() == m,
            forall|j: int|
                0 <= j < m ==> (#[trigger] all_groups[j])@ == files_at_time(orig, st[j]@),
            forall|j: int| 0 <= j < orig.len() ==> (#[trigger] orig[j]).segment >= 1,
            result@.len() == g,
            forall|j: int|
                0 <= j < g ==> (#[trigger] result@[j]).0@ == st[j]@ && full_disk_from(
                    result@[j].1,
                    files_at_time(orig, st[j]@),
                ),
        decreases m - g,
    {
        let grp = groups.remove(0);
        let t = stamps.remove(0);
        assert(grp == all_groups[g as int]);
        assert(t == st[g as int]);
        proof {
            assert forall|q: int| 0 <= q < grp@.len() implies (#[trigger] grp@[q]).segment >= 1 by {
                let sel = files_at_time(orig, st[g as int]@);
                assert(sel.contains(grp@[q]));
                orig.lemma_filter_contains_rev(|f: HsdFileInfo| f.timestamp@ == st[g as int]@, grp@[q]);
                let w = choose|w: int| 0 <= w < orig.len() && orig[w] == grp@[q];
                assert(orig[w].segment >= 1);
            }
        }
        let fd = FullDiskRawDataStructure::build_from_files(grp);
        result.push((t, fd));
        g = g + 1;
    }
    proof {
        assert(group_times(result@) =~= texts(st));
    }
    Ok(result)
}

/// The paths, in their order, whose file name is accepted.
pub open spec fn accepted_paths(paths: Seq<PathBuf>) -> Seq<PathBuf> {
    paths.filter(|p: PathBuf| path_accepted(p))
}

/// The paths of a list of file descriptions.
pub open spec fn info_paths(infos: Seq<HsdFileInfo>) -> Seq<PathBuf> {
    infos.map_values(|f: HsdFileInfo| f.path)
}

/// `infos` describes, in order, the accepted files among `paths`: one
/// description per accepted path, each taken from that path's file name.
pub open spec fn infos_of_paths(infos: Seq<HsdFileInfo>, paths: Seq<PathBuf>) -> bool {
    &&& info_paths(infos) == accepted_paths(paths)
    &&& forall|i: int| 0 <= i < infos.len() ==> info_of_path(#[trigger] infos[i], infos[i].path)
}

/// No path is accepted exactly when the accepted paths are none.
proof fn lemma_none_accepted(paths: Seq<PathBuf>)
    ensures
        accepted_paths(paths).len() == 0 <==> forall|i: int|
            0 <= i < paths.len() ==> !path_accepted(#[trigger] paths[i]),
{
    let sel = accepted_paths(paths);
    if sel.len() > 0 {
        paths.lemma_filter_pred(|p: PathBuf| path_accepted(p), 0);
        assert(sel.contains(sel[0]));
        paths.lemma_filter_contains_rev(|p: PathBuf| path_accepted(p), sel[0]);
        let i = choose|i: int| 0 <= i < paths.len() && paths[i] == sel[0];
        assert(path_accepted(paths[i]));
    }
    assert forall|i: int| 0 <= i < paths.len() && path_accepted(paths[i]) implies sel.len() > 0 by {
        paths.lemma_filter_contains(|p: PathBuf| path_accepted(p), i);
    }
}

/// Arranges the given files by observation time, keeping, in their order,
/// those whose upper-cased file name is that of a full-disk HSD file; fails
/// exactly when there is none.
pub fn organize_hsd_files_by_time(paths: Vec<PathBuf>) -> (r: Result<
    Vec<(String, FullDiskRawDataStructure)>,
    OrganizeError,
>)
    ensures
        r is Err <==> forall|i: int| 0 <= i < paths@.len() ==> !path_accepted(#[trigger] paths@[i]),
        r matches Err(e) ==> e == OrganizeError::NoValidFiles,
        r matches Ok(groups) ==> exists|infos: Seq<HsdFileInfo>|
            #[trigger] organized_by_time(groups@, infos) && infos_of_paths(infos, paths@),
{
    let ghost all = paths@;
    let mut infos: Vec<HsdFileInfo> = Vec::new();
    let mut rest = paths;
    let ghost mut taken: int = 0;
    proof {
        reveal_with_fuel(Seq::filter, 1);
        assert(all.take(0) =~= Seq::<PathBuf>::empty());
        assert(info_paths(infos@) =~= accepted_paths(all.take(0)));
    }
    while rest.len() > 0
        invariant
            0 <= taken <= all.len(),
            rest@ == all.subrange(taken, all.len() as int),
            infos_of_paths(infos@, all.take(taken)),
        decreases rest@.len(),
    {
        let path = rest.remove(0);
        assert(path == all[taken]);
        let ghost before = infos@;
        if let Some(info) = HsdFileInfo::try_from_path(path) {
            infos.push(info);
            assert(info_paths(infos@) =~= info_paths(before).push(all[taken]));
        } else {
            assert(infos@ == before);
        }
        proof {
            reveal_with_fuel(Seq::filter, 1);
            let next = all.take(taken + 1);
            assert(next.drop_last() =~= all.take(taken));
            assert(next.last() == all[taken]);
            assert(info_paths(infos@) =~= accepted_paths(next));
            taken = taken + 1;
        }
    }
    assert(all.take(taken) =~= all);
    assert forall|i: int| 0 <= i < infos@.len() implies (#[trigger] infos@[i]).segment >= 1 by {
        assert(info_of_path(infos@[i], infos@[i].path));
    }
    let ghost kept = infos@;
    let r = organize_hsd_file_infos(infos);
    proof {
        lemma_none_accepted(all);
        assert(info_paths(kept).len() == kept.len());
        if r is Ok {
            assert(organized_by_time(r->Ok_0@, kept));
        }
    }
    r
}

/// `last_match` finds the last file of the band and segment: it is at or
/// after any such file.
proof fn lemma_last_match_at_least(files: Seq<HsdFileInfo>, band: Seq<char>, segment: int, i: int)
    requires
        0 <= i < files.len(),
        files[i].band@ == band,
        files[i].segment == segment,
    ensures
        i <= last_match(files, band, segment) < files.len(),
        files[last_match(files, band, segment)].band@ == band,
        files[last_match(files, band, segment)].segment == segment,
    decreases files.len(),
{
    if i < files.len() - 1 {
        let last = files.last();
        if !(last.band@ == band && last.segment == segment) {
            assert(files.drop_last()[i] == files[i]);
            lemma_last_match_at_least(files.drop_last(), band, segment, i);
            let j = last_match(files.drop_last(), band, segment);
            assert(files.drop_last()[j] == files[j]);
        }
    }
}

/// No file is lost: every file of a segment from 1 to 10 has its band among
/// the band names, and the slot of that band in its segment holds the path
/// of a file of that band and segment, itself or a later one.
pub proof fn lemma_every_file_placed(fd: FullDiskRawDataStructure, files: Seq<HsdFileInfo>, i: int)
    requires
        full_disk_from(fd, files),
        0 <= i < files.len(),
        1 <= files[i].segment <= 10,
    ensures
        fd.segments@[files[i].segment - 1].segment_index == files[i].segment,
        exists|k: int|
            0 <= k < fd.band_names@.len() && #[trigger] fd.band_names@[k]@ == files[i].band@
                && exists|j: int|
                i <= j < files.len() && files[j].band@ == files[i].band@ && files[j].segment
                    == files[i].segment && fd.segments@[files[i].segment - 1].files@[k] == Some(
                    #[trigger] files[j].path,
                ),
{
    let f = files[i];
    assert(file_bands(files)[i] == f.band@);
    assert(file_bands(files).contains(f.band@));
    assert(texts(fd.band_names@).contains(f.band@));
    let k = choose|k: int| 0 <= k < texts(fd.band_names@).len() && texts(fd.band_names@)[k] == f.band@;
    assert(fd.band_names@[k]@ == f.band@);
    let s = f.segment - 1;
    assert(fd.segments@[s].files@[k] == slot_of(files, fd.band_names@[k]@, s + 1));
    lemma_last_match_at_least(files, f.band@, f.segment as int, i);
    let j = last_match(files, f.band@, f.segment as int);
    assert(fd.segments@[s].files@[k] == Some(files[j].path));
}

/// No file is lost when arranging by time: every file of a segment from 1
/// to 10 lands in the group of its observation time, whose slot for its
/// band and segment holds a path.
pub proof fn lemma_every_file_grouped(
    groups: Seq<(String, FullDiskRawDataStructure)>,
    files: Seq<HsdFileInfo>,
    i: int,
)
    requires
        organized_by_time(groups, files),
        0 <= i < files.len(),
        1 <= files[i].segment <= 10,
    ensures
        exists|g: int|
            0 <= g < groups.len() && #[trigger] groups[g].0@ == files[i].timestamp@ && exists|k: int|
                0 <= k < groups[g].1.band_names@.len() && #[trigger] groups[g].1.band_names@[k]@
                    == files[i].band@ && groups[g].1.segments@[files[i].segment - 1].files@[k] is Some,
{
    let f = files[i];
    assert(file_times(files)[i] == f.timestamp@);
    assert(file_times(files).contains(f.timestamp@));
    assert(group_times(groups).contains(f.timestamp@));
    let g = choose|g: int| 0 <= g < group_times(groups).len() && group_times(groups)[g] == f.timestamp@;
    assert(groups[g].0@ == f.timestamp@);
    let sel = files_at_time(files, f.timestamp@);
    assert(full_disk_from(groups[g].1, sel));
    files.lemma_filter_contains(|x: HsdFileInfo| x.timestamp@ == f.timestamp@, i);
    assert(sel.contains(f));
    let i2 = choose|i2: int| 0 <= i2 < sel.len() && sel[i2] == f;
    lemma_every_file_placed(groups[g].1, sel, i2);
    let fd = groups[g].1;
    let k = choose|k: int|
        0 <= k < fd.band_names@.len() && #[trigger] fd.band_names@[k]@ == sel[i2].band@
            && exists|j: int|
            i2 <= j < sel.len() && sel[j].band@ == sel[i2].band@ && sel[j].segment
                == sel[i2].segment && fd.segments@[sel[i2].segment - 1].files@[k] == Some(
                #[trigger] sel[j].path,
            );
    assert(groups[g].1.band_names@[k]@ == files[i].band@);
}

/// No two files of the list have both the same band and the same segment.
pub open spec fn no_repeated_slot(files: Seq<HsdFileInfo>) -> bool {
    forall|i: int, j: int|
        0 <= i < j < files.len() ==> !(#[trigger] files[i].band@ == #[trigger] files[j].band@
            && files[i].segment == files[j].segment)
}

/// In two lists that hold the same files, neither with a repeated band and
/// segment, the slot of a band and segment holds the same path.
proof fn lemma_slot_order_free(
    f1: Seq<HsdFileInfo>,
    f2: Seq<HsdFileInfo>,
    band: Seq<char>,
    segment: int,
)
    requires
        forall|x: HsdFileInfo| f1.contains(x) <==> f2.contains(x),
        no_repeated_slot(f1),
        no_repeated_slot(f2),
    ensures
        slot_of(f1, band, segment) == slot_of(f2, band, segment),
{
    lemma_last_match_bounds(f1, band, segment);
    lemma_last_match_bounds(f2, band, segment);
    let j1 = last_match(f1, band, segment);
    let j2 = last_match(f2, band, segment);
    if j1 >= 0 {
        assert(f1.contains(f1[j1]));
        let m = choose|m: int| 0 <= m < f2.len() && f2[m] == f1[j1];
        lemma_last_match_at_least(f2, band, segment, m);
        if j2 != m {
            assert(!(f2[m].band@ == f2[j2].band@ && f2[m].segment == f2[j2].segment));
        }
    } else if j2 >= 0 {
        assert(f2.contains(f2[j2]));
        let m = choose|m: int| 0 <= m < f1.len() && f1[m] == f2[j2];
        lemma_last_match_at_least(f1, band, segment, m);
    }
}

/// Arranging files does not depend on their order: two lists that hold the
/// same files (such as one list and a reordering of it), neither with two
/// files of the same band and segment, give the same band names and the
/// same path in every slot of every segment.
pub proof fn lemma_arrangement_order_free(
    fd1: FullDiskRawDataStructure,
    f1: Seq<HsdFileInfo>,
    fd2: FullDiskRawDataStructure,
    f2: Seq<HsdFileInfo>,
)
    requires
        full_disk_from(fd1, f1),
        full_disk_from(fd2, f2),
        forall|x: HsdFileInfo| f1.contains(x) <==> f2.contains(x),
        no_repeated_slot(f1),
        no_repeated_slot(f2),
    ensures
        texts(fd1.band_names@) == texts(fd2.band_names@),
        fd1.segments@.len() == fd2.segments@.len(),
        forall|s: int|
            0 <= s < fd1.segments@.len() ==> (#[trigger] fd1.segments@[s]).segment_index
                == fd2.segments@[s].segment_index && fd1.segments@[s].files@ == fd2.segments@[s].files@,
{
    assert forall|x: Seq<char>| file_bands(f1).contains(x) <==> file_bands(f2).contains(x) by {
        if file_bands(f1).contains(x) {
            let i = choose|i: int| 0 <= i < f1.len() && file_bands(f1)[i] == x;
            assert(f1.contains(f1[i]));
            let m = choose|m: int| 0 <= m < f2.len() && f2[m] == f1[i];
            assert(file_bands(f2)[m] == x);
        }
        if file_bands(f2).contains(x) {
            let i = choose|i: int| 0 <= i < f2.len() && file_bands(f2)[i] == x;
            assert(f2.contains(f2[i]));
            let m = choose|m: int| 0 <= m < f1.len() && f1[m] == f2[i];
            assert(file_bands(f1)[m] == x);
        }
    }
    assert forall|x: Seq<char>| texts(fd1.band_names@).contains(x) <==> texts(
        fd2.band_names@,
    ).contains(x) by {
        assert(texts(fd1.band_names@).contains(x) <==> file_bands(f1).contains(x));
        assert(texts(fd2.band_names@).contains(x) <==> file_bands(f2).contains(x));
    }
    lemma_sorted_same_texts(texts(fd1.band_names@), texts(fd2.band_names@));
    let t = texts(fd1.band_names@);
    assert forall|s: int| 0 <= s < fd1.segments@.len() implies (#[trigger] fd1.segments@[s]).segment_index
        == fd2.segments@[s].segment_index && fd1.segments@[s].files@ == fd2.segments@[s].files@ by {
        assert forall|k: int| 0 <= k < fd1.segments@[s].files@.len() implies fd1.segments@[s].files@[k]
            == fd2.segments@[s].files@[k] by {
            assert(t[k] == fd1.band_names@[k]@);
            assert(texts(fd2.band_names@)[k] == fd2.band_names@[k]@);
            lemma_slot_order_free(f1, f2, fd1.band_names@[k]@, s + 1);
        }
        assert(fd1.segments@[s].files@ =~= fd2.segments@[s].files@);
    }
}

} // verus!
