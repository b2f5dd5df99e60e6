//! Decisions and file names of the runtime debug snapshots: when a snapshot
//! write is due, how a reason is shortened, and where frame previews go.

use vstd::prelude::*;
use vstd::string::*;
use crate::memory::{format_hex_or_zero, spec_hex_or_zero};
use crate::preview::{sanitize_filename_part, spec_sanitize_filename_part};
use crate::text::{
    chars_less, chars_lt, chars_of, lemma_chars_lt_irreflexive, lemma_chars_lt_total, lemma_chars_lt_transitive,
    push_char, push_decimal, push_hex_padded, spec_decimal, spec_hex_padded,
};

verus! {

/// A reason of at most 180 characters; longer ones are cut there and get `...`.
pub open spec fn spec_truncate_debug_reason(reason: Seq<char>) -> Seq<char> {
    if reason.len() > 180 {
        reason.take(180) + "..."@
    } else {
        reason
    }
}

/// Shortens a snapshot reason to 180 characters, marking a cut with `...`.
pub fn truncate_debug_reason(reason: &str) -> (r: String)
    ensures
        r@ == spec_truncate_debug_reason(reason@),
{
    let v = chars_of(reason);
    let n = if v.len() > 180 {
        180
    } else {
        v.len()
    };
    let mut r = String::new();
    let mut i: usize = 0;
    while i < n
        invariant
            i <= n <= v@.len(),
            r@ == v@.take(i as int),
        decreases n - i,
    {
        push_char(&mut r, v[i]);
        i = i + 1;
        assert(r@ =~= v@.take(i as int));
    }
    if v.len() > 180 {
        r.append("...");
    } else {
        assert(v@.take(i as int) =~= v@);
    }
    r
}

/// A periodic write is due once `interval_ms` have passed since the last one
/// (a clock that went backwards counts as no time passed).
pub open spec fn spec_snapshot_write_due(last_ms: u64, now_ms: u64, interval_ms: u64) -> bool {
    (if now_ms >= last_ms { now_ms - last_ms } else { 0 }) >= interval_ms
}

/// Whether a periodic snapshot write is due.
pub fn snapshot_write_due(last_ms: u64, now_ms: u64, interval_ms: u64) -> (r: bool)
    ensures
        r == spec_snapshot_write_due(last_ms, now_ms, interval_ms),
{
    now_ms.saturating_sub(last_ms) >= interval_ms
}

/// A frame gets a preview when it has pixels and both dimensions are non-zero.
pub fn frame_preview_wanted(width: u32, height: u32, pixel_count: usize) -> (r: bool)
    ensures
        r == (pixel_count != 0 && width != 0 && height != 0),
{
    !(pixel_count == 0 || width == 0 || height == 0)
}

/// The texture named in a preview file name: the source texture, else the uploaded
/// texture, rendered with `format_hex_or_zero`; `none` when there is neither.
pub open spec fn spec_preview_texture_label(source_texture: Option<u64>, upload_texture: Option<u64>) -> Seq<char> {
    match source_texture {
        Some(h) => spec_hex_or_zero(h as nat),
        None => match upload_texture {
            Some(h) => spec_hex_or_zero(h as nat),
            None => "none"@,
        },
    }
}

/// `component_{hash:016x}_slot{slot}_frame{frame}_{source}_tex_{texture}_{now}ms.bmp`
/// with the source and texture sanitised for file names.
pub open spec fn spec_frame_preview_file_name(
    component_hash: u64,
    slot: u32,
    frame_id: u64,
    source: Seq<char>,
    texture: Seq<char>,
    now_ms: u64,
) -> Seq<char> {
    "component_"@ + spec_hex_padded(component_hash as nat, 16) + "_slot"@ + spec_decimal(slot as nat)
        + "_frame"@ + spec_decimal(frame_id as nat) + "_"@ + spec_sanitize_filename_part(source)
        + "_tex_"@ + spec_sanitize_filename_part(texture) + "_"@ + spec_decimal(now_ms as nat)
        + "ms.bmp"@
}

/// The file name of a frame preview.
pub fn frame_preview_file_name(
    component_hash: u64,
    slot: u32,
    frame_id: u64,
    source: &str,
    source_texture: Option<u64>,
    upload_texture: Option<u64>,
    now_ms: u64,
) -> (r: String)
    ensures
        r@ == spec_frame_preview_file_name(
            component_hash,
            slot,
            frame_id,
            source@,
            spec_preview_texture_label(source_texture, upload_texture),
            now_ms,
        ),
{
    let texture = match source_texture {
        Some(h) => format_hex_or_zero(h),
        None => match upload_texture {
            Some(h) => format_hex_or_zero(h),
            None => String::from_str("none"),
        },
    };
    let mut r = String::from_str("component_");
    push_hex_padded(&mut r, component_hash, 16);
    r.append("_slot");
    push_decimal(&mut r, slot as u64);
    r.append("_frame");
    push_decimal(&mut r, frame_id);
    r.append("_");
    let s = sanitize_filename_part(source);
    r.append(s.as_str());
    r.append("_tex_");
    let t = sanitize_filename_part(texture.as_str());
    r.append(t.as_str());
    r.append("_");
    push_decimal(&mut r, now_ms);
    r.append("ms.bmp");
    r
}

/// The frame source a slot is counted under: its latest frame's source, or `none`.
pub open spec fn source_label(source: Option<String>) -> Seq<char> {
    match source {
        Some(s) => s@,
        None => "none"@,
    }
}

/// How many of the slots are counted under `label`.
pub open spec fn label_count(sources: Seq<Option<String>>, label: Seq<char>) -> nat
    decreases sources.len(),
{
    if sources.len() == 0 {
        0
    } else {
        label_count(sources.drop_last(), label) + if source_label(sources.last()) == label {
            1nat
        } else {
            0nat
        }
    }
}

/// `label` is one of the keys.
pub open spec fn label_listed(keys: Seq<String>, label: Seq<char>) -> bool {
    exists|j: int| 0 <= j < keys.len() && #[trigger] keys[j]@ == label
}

/// The sum of the counts.
pub open spec fn total(counts: Seq<usize>) -> nat
    decreases counts.len(),
{
    if counts.len() == 0 {
        0
    } else {
        total(counts.drop_last()) + counts.last() as nat
    }
}

proof fn lemma_total_update(s: Seq<usize>, p: int, v: usize)
    requires
        0 <= p < s.len(),
    ensures
        total(s.update(p, v)) + s[p] == total(s) + v,
    decreases s.len(),
{
    if p < s.len() - 1 {
        assert(s.update(p, v).drop_last() =~= s.drop_last().update(p, v));
        lemma_total_update(s.drop_last(), p, v);
    } else {
        assert(s.update(p, v).drop_last() =~= s.drop_last());
    }
}

proof fn lemma_total_insert(s: Seq<usize>, p: int, v: usize)
    requires
        0 <= p <= s.len(),
    ensures
        total(s.insert(p, v)) == total(s) + v,
    decreases s.len(),
{
    if p < s.len() {
        assert(s.insert(p, v).drop_last() =~= s.drop_last().insert(p, v));
        lemma_total_insert(s.drop_last(), p, v);
    } else {
        assert(s.insert(p, v).drop_last() =~= s);
    }
}

/// Labels in strictly increasing order.
pub open spec fn labels_sorted(keys: Seq<String>) -> bool {
    forall|i: int, j: int| 0 <= i < j < keys.len() ==> chars_lt(#[trigger] keys[i]@, #[trigger] keys[j]@)
}

proof fn lemma_label_count_le(sources: Seq<Option<String>>, label: Seq<char>)
    ensures
        label_count(sources, label) <= sources.len(),
    decreases sources.len(),
{
    if sources.len() > 0 {
        lemma_label_count_le(sources.drop_last(), label);
    }
}

proof fn lemma_label_count_witness(sources: Seq<Option<String>>, label: Seq<char>)
    requires
        label_count(sources, label) > 0,
    ensures
        exists|i: int| 0 <= i < sources.len() && #[trigger] source_label(sources[i]) == label,
    decreases sources.len(),
{
    if source_label(sources.last()) != label {
        lemma_label_count_witness(sources.drop_last(), label);
        let i = choose|i: int| 0 <= i < sources.drop_last().len() && #[trigger] source_label(sources.drop_last()[i]) == label;
        assert(source_label(sources[i]) == label);
    } else {
        assert(source_label(sources[sources.len() - 1]) == label);
    }
}

/// Where `label` belongs among sorted keys: `(j, true)` when `keys[j]` is the label,
/// `(j, false)` when every key before `j` is below the label and `keys[j]`, if any, above it.
fn find_label(keys: &Vec<String>, label: &String) -> (r: (usize, bool))
    ensures
        r.0 <= keys@.len(),
        r.1 ==> r.0 < keys@.len() && keys@[r.0 as int]@ == label@,
        !r.1 ==> (forall|i: int| 0 <= i < r.0 ==> chars_lt(#[trigger] keys@[i]@, label@)),
        !r.1 && r.0 < keys@.len() ==> chars_lt(label@, keys@[r.0 as int]@),
{
    let lv = chars_of(label.as_str());
    let mut j: usize = 0;
    while j < keys.len()
        invariant
            j <= keys@.len(),
            lv@ == label@,
            forall|i: int| 0 <= i < j ==> chars_lt(#[trigger] keys@[i]@, label@),
        decreases keys.len() - j,
    {
        if keys[j] == *label {
            return (j, true);
        }
        let kv = chars_of(keys[j].as_str());
        if chars_less(&lv, &kv) {
            return (j, false);
        }
        proof {
            lemma_chars_lt_total(keys@[j as int]@, label@);
        }
        j = j + 1;
    }
    (j, false)
}

/// Counts the slots per frame source, each slot given by its latest frame's source
/// (`None` for a slot without a frame, counted as `none`). The result lists each source
/// once, in the order of `str`, with the number of slots counted under it.
pub fn runtime_debug_frame_source_counts(sources: &Vec<Option<String>>) -> (r: Vec<(String, usize)>)
    ensures
        labels_sorted(r@.map_values(|p: (String, usize)| p.0)),
        forall|j: int| 0 <= j < r@.len() ==> (#[trigger] r@[j]).1 == label_count(sources@, r@[j].0@) && r@[j].1 > 0,
        forall|i: int| 0 <= i < sources@.len() ==> label_listed(r@.map_values(|p: (String, usize)| p.0), source_label(#[trigger] sources@[i])),
        total(r@.map_values(|p: (String, usize)| p.1)) == sources@.len(),
{
    let mut keys: Vec<String> = Vec::new();
    let mut counts: Vec<usize> = Vec::new();
    let mut n: usize = 0;
    while n < sources.len()
        invariant
            n <= sources@.len(),
            keys@.len() == counts@.len(),
            total(counts@) == n,
            labels_sorted(keys@),
            forall|j: int| 0 <= j < keys@.len() ==> #[trigger] counts@[j] == label_count(sources@.take(n as int), keys@[j]@) && counts@[j] > 0,
            forall|i: int| 0 <= i < n ==> label_listed(keys@, source_label(#[trigger] sources@[i])),
        decreases sources.len() - n,
    {
        let label = match &sources[n] {
            Some(s) => s.clone(),
            None => String::from_str("none"),
        };
        proof {
            reveal_strlit("none");
        }
        assert(label@ == source_label(sources@[n as int]));
        let ghost prev = sources@.take(n as int);
        let ghost next = sources@.take(n + 1);
        assert(next.drop_last() =~= prev);
        assert(next.last() == sources@[n as int]);
        let ghost old_keys = keys@;
        let ghost old_counts = counts@;
        let (pos, found) = find_label(&keys, &label);
        if found {
            proof {
                lemma_label_count_le(prev, label@);
                assert forall|j: int| 0 <= j < keys@.len() && j != pos implies keys@[j]@ != label@ by {
                    if j < pos {
                        lemma_chars_lt_irreflexive(label@);
                        assert(chars_lt(keys@[j]@, keys@[pos as int]@));
                    } else {
                        lemma_chars_lt_irreflexive(label@);
                        assert(chars_lt(keys@[pos as int]@, keys@[j]@));
                    }
                }
            }
            let c = counts[pos];
            proof {
                lemma_total_update(counts@, pos as int, (c + 1) as usize);
            }
            counts.set(pos, c + 1);
            proof {
                assert forall|j: int| 0 <= j < keys@.len() implies #[trigger] counts@[j] == label_count(next, keys@[j]@) && counts@[j] > 0 by {
                    if j != pos {
                        assert(keys@[j]@ != label@);
                    }
                }
                assert forall|i: int| 0 <= i < n + 1 implies label_listed(keys@, source_label(#[trigger] sources@[i])) by {
                    if i == n {
                        assert(keys@[pos as int]@ == source_label(sources@[i]));
                    }
                }
            }
        } else {
            proof {
                assert forall|j: int| 0 <= j < keys@.len() implies #[trigger] keys@[j]@ != label@ by {
                    lemma_chars_lt_irreflexive(label@);
                    if j < pos {
                    } else {
                        if j > pos {
                            lemma_chars_lt_transitive(label@, keys@[pos as int]@, keys@[j]@);
                        }
                    }
                }
                if label_count(prev, label@) > 0 {
                    lemma_label_count_witness(prev, label@);
                    let i = choose|i: int| 0 <= i < prev.len() && #[trigger] source_label(prev[i]) == label@;
                    assert(prev[i] == sources@[i]);
                    let j = choose|j: int| 0 <= j < keys@.len() && #[trigger] keys@[j]@ == source_label(sources@[i]);
                    assert(keys@[j]@ == label@);
                }
            }
            proof {
                lemma_total_insert(counts@, pos as int, 1);
            }
            keys.insert(pos, label);
            counts.insert(pos, 1);
            proof {
                assert forall|a: int, b: int| 0 <= a < b < keys@.len() implies chars_lt(#[trigger] keys@[a]@, #[trigger] keys@[b]@) by {
                    if b < pos {
                        assert(keys@[a] == old_keys[a] && keys@[b] == old_keys[b]);
                    } else if b == pos {
                        assert(keys@[a] == old_keys[a]);
                    } else if a > pos {
                        assert(keys@[a] == old_keys[a - 1] && keys@[b] == old_keys[b - 1]);
                    } else if a == pos {
                        assert(keys@[b] == old_keys[b - 1]);
                        if b - 1 > pos {
                            lemma_chars_lt_transitive(label@, old_keys[pos as int]@, old_keys[b - 1]@);
                        }
                    } else {
                        assert(keys@[a] == old_keys[a] && keys@[b] == old_keys[b - 1]);
                    }
                }
                assert forall|j: int| 0 <= j < keys@.len() implies #[trigger] counts@[j] == label_count(next, keys@[j]@) && counts@[j] > 0 by {
                    if j < pos {
                        assert(keys@[j] == old_keys[j] && counts@[j] == old_counts[j]);
                        assert(old_keys[j]@ != label@);
                    } else if j > pos {
                        assert(keys@[j] == old_keys[j - 1] && counts@[j] == old_counts[j - 1]);
                        assert(old_keys[j - 1]@ != label@);
                    }
                }
                assert forall|i: int| 0 <= i < n + 1 implies label_listed(keys@, source_label(#[trigger] sources@[i])) by {
                    if i == n {
                        assert(keys@[pos as int]@ == source_label(sources@[i]));
                    } else {
                        let j = choose|j: int| 0 <= j < old_keys.len() && #[trigger] old_keys[j]@ == source_label(sources@[i]);
                        if j < pos {
                            assert(keys@[j] == old_keys[j]);
                        } else {
                            assert(keys@[j + 1] == old_keys[j]);
                        }
                    }
                }
            }
        }
        proof {
            lemma_label_count_le(next, label@);
        }
        n = n + 1;
    }
    assert(sources@.take(n as int) =~= sources@);
    let mut r: Vec<(String, usize)> = Vec::new();
    let mut k: usize = 0;
    while k < keys.len()
        invariant
            k <= keys@.len(),
            keys@.len() == counts@.len(),
            r@.len() == k,
            forall|j: int| 0 <= j < k ==> (#[trigger] r@[j]).0 == keys@[j] && r@[j].1 == counts@[j],
            labels_sorted(keys@),
            total(counts@) == sources@.len(),
            forall|j: int| 0 <= j < keys@.len() ==> #[trigger] counts@[j] == label_count(sources@, keys@[j]@) && counts@[j] > 0,
            forall|i: int| 0 <= i < sources@.len() ==> label_listed(keys@, source_label(#[trigger] sources@[i])),
        decreases keys.len() - k,
    {
        r.push((keys[k].clone(), counts[k]));
        k = k + 1;
    }
    proof {
        assert(r@.map_values(|p: (String, usize)| p.0) =~= keys@);
        assert(r@.map_values(|p: (String, usize)| p.1) =~= counts@);
    }
    r
}

/// The debug listings of recent events show the newest first, at most `limit` of them.
pub fn newest_first<T: Copy>(events: &Vec<T>, limit: usize) -> (r: Vec<T>)
    ensures
        r@.len() == (if events@.len() < limit { events@.len() } else { limit as nat }),
        forall|i: int| 0 <= i < r@.len() ==> #[trigger] r@[i] == events@[events@.len() - 1 - i],
{
    let n = events.len();
    let count = if n < limit {
        n
    } else {
        limit
    };
    let mut r: Vec<T> = Vec::new();
    let mut i: usize = 0;
    while i < count
        invariant
            count <= n == events@.len(),
            i <= count,
            r@.len() == i,
            forall|k: int| 0 <= k < i ==> #[trigger] r@[k] == events@[n - 1 - k],
        decreases count - i,
    {
        r.push(events[n - 1 - i]);
        i = i + 1;
    }
    r
}

} // verus!
