//! Properties of the library that span its operations, proved over the
//! same specifications that the operations' contracts use.
use vstd::prelude::*;
use vstd::multiset::Multiset;
use crate::mirrors::{
    MirrorView, spec_least_used, spec_take, spec_give_back, spec_insert_by_speed,
    spec_sort_by_speed, spec_passed, spec_after_test, spec_initial_mirrors,
};
use crate::planner::{
    DownloadEntryView, PatchEntryView, PlannerView, spec_find_download, spec_process, spec_delta_path,
};
use crate::instruction::InstructionView;
use crate::directory::{
    Directory, spec_versioned_tree, spec_versioned_dir, spec_versioned_files_at, spec_relative, spec_dirs_of,
    spec_is_prefix, spec_after_create, spec_has_file_name, spec_kept, spec_tree_answers,
};
use crate::pausable::{PauseFlags, PollDecision, spec_paused, spec_resumed, spec_stopped, spec_poll_decision};
use vstd::wrapping::u64_specs::{wrapping_add, wrapping_sub};
use crate::action::{ActionView, EffectView, spec_action_plan, spec_target_path};
use crate::parts::{PART_SIZE, spec_parts_amount, spec_missing_parts, spec_parts_bytes};
use crate::tracker::{spec_ascending, spec_without, lemma_remove_is_without};
use crate::bufwriter::{ByteSink, BufWriter};
use crate::bytesize::{spec_human_readable_bytesize, spec_hundredths_text, spec_exponent, spec_pow1000, spec_unit};
use crate::text::{spec_decimal, spec_digit};

verus! {

broadcast use vstd::seq_lib::group_to_multiset_ensures;

/// Mirrors ordered from fastest to slowest.
pub open spec fn spec_fastest_first(s: Seq<MirrorView>) -> bool {
    forall|a: int, b: int| 0 <= a <= b < s.len() ==> s[a].speed_millis <= s[b].speed_millis
}

/// `get_mirror` hands out an enabled mirror, one with the fewest copies in
/// use and the first of those; it finds none only when no mirror is enabled.
pub proof fn law_get_mirror_picks_first_least_used(s: Seq<MirrorView>)
    ensures
        spec_least_used(s) is None <==> (forall|j: int| 0 <= j < s.len() ==> !s[j].enabled),
        spec_least_used(s) matches Some(i) ==> {
            &&& 0 <= i < s.len()
            &&& s[i].enabled
            &&& forall|j: int| 0 <= j < s.len() && s[j].enabled ==> s[i].in_use <= s[j].in_use
            &&& forall|j: int| 0 <= j < i && s[j].enabled ==> s[i].in_use < s[j].in_use
        },
    decreases s.len(),
{
    if s.len() > 0 {
        let d = s.drop_last();
        law_get_mirror_picks_first_least_used(d);
        assert forall|j: int| 0 <= j < d.len() implies d[j] == s[j] by {}
    }
}

/// Giving back a mirror right after it was handed out restores the mirrors
/// (unless its count of copies in use had saturated).
pub proof fn law_release_undoes_get_mirror(s: Seq<MirrorView>, i: int)
    requires
        0 <= i < s.len(),
        s[i].in_use < usize::MAX,
    ensures
        spec_give_back(spec_take(s, i), i) == s,
{
    assert(spec_give_back(spec_take(s, i), i) =~= s);
}

/// Inserting a mirror by speed keeps the order and adds exactly that mirror.
proof fn lemma_insert_by_speed(sorted: Seq<MirrorView>, m: MirrorView)
    requires
        spec_fastest_first(sorted),
    ensures
        spec_fastest_first(spec_insert_by_speed(sorted, m)),
        spec_insert_by_speed(sorted, m).to_multiset() =~= sorted.to_multiset().insert(m),
    decreases sorted.len(),
{
    if sorted.len() == 0 {
        assert(seq![m] =~= Seq::<MirrorView>::empty().push(m));
    } else if sorted.last().speed_millis <= m.speed_millis {
    } else {
        let d = sorted.drop_last();
        let last = sorted.last();
        assert(d.push(last) =~= sorted);
        lemma_insert_by_speed(d, m);
        let t = spec_insert_by_speed(d, m);
        assert forall|a: int| 0 <= a < t.len() implies t[a].speed_millis <= last.speed_millis by {
            assert(t.contains(t[a]));
            assert(t.to_multiset().count(t[a]) > 0);
            if t[a] != m {
                assert(d.to_multiset().count(t[a]) > 0);
                assert(d.contains(t[a]));
                let j = choose|j: int| 0 <= j < d.len() && d[j] == t[a];
                assert(sorted[j] == d[j]);
            }
        }
        assert(spec_insert_by_speed(sorted, m) == t.push(last));
    }
}

/// Sorting by speed orders the mirrors fastest first and keeps each of them.
proof fn lemma_sort_by_speed(s: Seq<MirrorView>)
    ensures
        spec_fastest_first(spec_sort_by_speed(s)),
        spec_sort_by_speed(s).to_multiset() =~= s.to_multiset(),
    decreases s.len(),
{
    if s.len() == 0 {
        assert(s.to_multiset() =~= Multiset::<MirrorView>::empty());
        assert(spec_sort_by_speed(s).to_multiset() =~= Multiset::<MirrorView>::empty());
    } else {
        let d = s.drop_last();
        lemma_sort_by_speed(d);
        lemma_insert_by_speed(spec_sort_by_speed(d), s.last());
        assert(d.push(s.last()) =~= s);
    }
}

/// After a speed test the mirrors that passed are all kept, fastest first,
/// numbered by position; the fastest keeps its enabled flag and every other
/// one is disabled exactly when it was disabled or is more than four times
/// slower than the fastest.
pub proof fn law_speed_test_orders_fastest_first(results: Seq<Option<MirrorView>>)
    ensures
        ({
            let out = spec_after_test(results);
            let sorted = spec_sort_by_speed(spec_passed(results));
            &&& spec_fastest_first(out)
            &&& sorted.to_multiset() =~= spec_passed(results).to_multiset()
            &&& out.len() == spec_passed(results).len()
            &&& forall|k: int| 0 <= k < out.len() ==> {
                &&& (#[trigger] out[k]).slot == k
                &&& out[k].base == sorted[k].base
                &&& out[k].ip == sorted[k].ip
                &&& out[k].speed_millis == sorted[k].speed_millis
                &&& out[k].enabled == (sorted[k].enabled && out[k].speed_millis <= 4 * out[0].speed_millis)
            }
            &&& out.len() > 0 ==> out[0].enabled == sorted[0].enabled
        }),
{
    let p = spec_passed(results);
    lemma_sort_by_speed(p);
    let sorted = spec_sort_by_speed(p);
    assert(sorted.len() == p.len()) by {
        assert(sorted.to_multiset().len() == p.to_multiset().len());
    }
    let out = spec_after_test(results);
    assert forall|a: int, b: int| 0 <= a <= b < out.len() implies out[a].speed_millis <= out[b].speed_millis by {
        assert(out[a].speed_millis == sorted[a].speed_millis);
        assert(out[b].speed_millis == sorted[b].speed_millis);
    }
}

/// No two planned downloads are for the same hash.
pub open spec fn spec_one_download_per_hash(downloads: Seq<(Seq<char>, DownloadEntryView)>) -> bool {
    forall|i: int, j: int| 0 <= i < j < downloads.len() ==> downloads[i].0 != downloads[j].0
}

/// The download found for `key` is the first one with that hash.
proof fn lemma_find_download(downloads: Seq<(Seq<char>, DownloadEntryView)>, key: Seq<char>)
    ensures
        spec_find_download(downloads, key) is None <==> (forall|j: int| 0 <= j < downloads.len() ==> downloads[j].0 != key),
        spec_find_download(downloads, key) matches Some(i) ==> {
            &&& 0 <= i < downloads.len()
            &&& downloads[i].0 == key
            &&& forall|j: int| 0 <= j < i ==> downloads[j].0 != key
        },
    decreases downloads.len(),
{
    if downloads.len() > 0 {
        let d = downloads.drop_last();
        lemma_find_download(d, key);
        assert forall|j: int| 0 <= j < d.len() implies d[j] == downloads[j] by {}
    }
}

/// Finding a download looks at the hashes only.
proof fn lemma_find_download_same_hashes(
    a: Seq<(Seq<char>, DownloadEntryView)>,
    b: Seq<(Seq<char>, DownloadEntryView)>,
    key: Seq<char>,
)
    requires
        a.len() == b.len(),
        forall|j: int| 0 <= j < a.len() ==> a[j].0 == b[j].0,
    ensures
        spec_find_download(a, key) == spec_find_download(b, key),
{
    lemma_find_download(a, key);
    lemma_find_download(b, key);
    if let Some(i) = spec_find_download(a, key) {
        if let Some(k) = spec_find_download(b, key) {
            if i < k { assert(b[i].0 == key); }
            if k < i { assert(a[k].0 == key); }
        }
    }
}

/// Planning an instruction never plans a second download for a hash: each
/// patch file is downloaded once, however many files it patches.
pub proof fn law_one_download_per_hash(p: PlannerView, instruction: InstructionView, file_opens: bool)
    requires
        spec_one_download_per_hash(p.downloads),
    ensures
        spec_one_download_per_hash(spec_process(p, instruction, file_opens).downloads),
{
    if !file_opens {
        if let Some(key) = instruction.newest_hash {
            lemma_find_download(p.downloads, key);
            let delta_path = spec_delta_path(p.renegadex_location, key);
            let downloads = match spec_find_download(p.downloads, key) {
                Some(_) => p.downloads,
                None => p.downloads.push((key, DownloadEntryView {
                    file_path: delta_path,
                    file_size: instruction.full_vcdiff_size,
                    file_hash: instruction.full_vcdiff_hash.unwrap(),
                    patch_entries: Seq::empty(),
                })),
            };
            assert(spec_one_download_per_hash(downloads)) by {
                if spec_find_download(p.downloads, key) is None {
                    assert forall|i: int, j: int| 0 <= i < j < downloads.len() implies downloads[i].0 != downloads[j].0 by {
                        if j == p.downloads.len() {
                            assert(downloads[i] == p.downloads[i]);
                        } else {
                            assert(downloads[i] == p.downloads[i] && downloads[j] == p.downloads[j]);
                        }
                    }
                }
            }
            lemma_find_download(downloads, key);
            let q = spec_process(p, instruction, false);
            assert forall|j: int| 0 <= j < downloads.len() implies q.downloads[j].0 == downloads[j].0 by {}
        }
    }
}

/// A file that cannot be opened and is to exist gets its patch queued behind
/// the download of the patch file for its newest hash, which goes to the
/// patcher directory; a file that opens is only queued for a hash check.
pub proof fn law_missing_file_waits_for_its_download(p: PlannerView, instruction: InstructionView, key: Seq<char>)
    requires
        instruction.newest_hash == Some(key),
    ensures
        ({
            let q = spec_process(p, instruction, false);
            &&& spec_find_download(q.downloads, key) matches Some(i)
                && q.downloads[i].1.patch_entries.last() == (PatchEntryView {
                    target_path: instruction.path,
                    delta_path: spec_delta_path(p.renegadex_location, key),
                    has_source: false,
                    target_hash: key,
                })
            &&& q.hash_queue == p.hash_queue
        }),
        spec_process(p, instruction, true).downloads == p.downloads,
        spec_process(p, instruction, true).hash_queue == p.hash_queue.push(instruction),
{
    lemma_find_download(p.downloads, key);
    let delta_path = spec_delta_path(p.renegadex_location, key);
    let downloads = match spec_find_download(p.downloads, key) {
        Some(_) => p.downloads,
        None => p.downloads.push((key, DownloadEntryView {
            file_path: delta_path,
            file_size: instruction.full_vcdiff_size,
            file_hash: instruction.full_vcdiff_hash.unwrap(),
            patch_entries: Seq::empty(),
        })),
    };
    lemma_find_download(downloads, key);
    let i = spec_find_download(downloads, key).unwrap();
    let q = spec_process(p, instruction, false);
    assert(q.downloads.len() == downloads.len());
    assert forall|j: int| 0 <= j < downloads.len() implies q.downloads[j].0 == downloads[j].0 by {}
    lemma_find_download_same_hashes(q.downloads, downloads, key);
}

/// Resuming after a successful pause restores the flags, and pausing work
/// that is already paused fails.
pub proof fn law_pause_resume_round_trip(f: PauseFlags)
    requires
        !f.paused,
    ensures
        spec_resumed(spec_paused(f)) == f,
        spec_paused(f).paused,
        spec_poll_decision(spec_paused(f)) != PollDecision::Run,
{
}

/// Once stopped, work stays cancelled whatever is paused or resumed, and a
/// second stop fails.
pub proof fn law_cancellation_is_final(f: PauseFlags)
    ensures
        spec_stopped(f).cancelled,
        spec_poll_decision(spec_stopped(f)) == PollDecision::Cancelled,
        spec_poll_decision(spec_paused(spec_stopped(f))) == PollDecision::Cancelled,
        spec_poll_decision(spec_resumed(spec_stopped(f))) == PollDecision::Cancelled,
{
}

/// Taking back downloaded bytes that were just counted restores the count,
/// also across wrap-around.
pub proof fn law_remove_undoes_add(downloaded: u64, amount: u64)
    ensures
        wrapping_sub(wrapping_add(downloaded, amount), amount) == downloaded,
{
}

/// Each downloaded part of a tracked patch file leaves exactly that part
/// pending no more: one fewer part is pending, the others stay pending and
/// in order. So the waiting entries are handed back after the last of the
/// parts has arrived once, whatever the order of arrival.
pub proof fn law_each_part_completes_once(pending: Seq<u64>, part_byte: u64)
    requires
        spec_ascending(pending),
        pending.contains(part_byte),
    ensures
        spec_without(pending, part_byte).len() + 1 == pending.len(),
        !spec_without(pending, part_byte).contains(part_byte),
        spec_ascending(spec_without(pending, part_byte)),
        forall|y: u64| y != part_byte ==> (spec_without(pending, part_byte).contains(y) <==> pending.contains(y)),
{
    let j = choose|j: int| 0 <= j < pending.len() && pending[j] == part_byte;
    lemma_remove_is_without(pending, j);
    let r = pending.remove(j);
    assert forall|y: u64| r.contains(y) implies y != part_byte && pending.contains(y) by {
        let a = choose|a: int| 0 <= a < r.len() && r[a] == y;
        if a < j {
            assert(pending[a] == y);
            assert(pending[a] < pending[j]);
        } else {
            assert(pending[a + 1] == y);
            assert(pending[j] < pending[a + 1]);
        }
    }
    assert forall|y: u64| y != part_byte && pending.contains(y) implies r.contains(y) by {
        let a = choose|a: int| 0 <= a < pending.len() && pending[a] == y;
        if a < j {
            assert(r[a] == y);
        } else {
            assert(a != j);
            assert(r[a - 1] == y);
        }
    }
}

/// The first `k` parts of a file cover `min(k * PART_SIZE, size)` bytes.
proof fn lemma_fresh_parts_bytes(file: Seq<char>, size: nat, completed: Seq<u8>)
    requires
        completed.len() <= spec_parts_amount(size),
        forall|i: int| 0 <= i < completed.len() ==> completed[i] == 0,
    ensures
        spec_parts_bytes(spec_missing_parts(file, size, completed)) == (if completed.len() * 1048576 < size {
            completed.len() * 1048576
        } else {
            size
        }),
        spec_missing_parts(file, size, completed).len() == completed.len(),
    decreases completed.len(),
{
    if completed.len() > 0 {
        let k = completed.len();
        let d = completed.drop_last();
        lemma_fresh_parts_bytes(file, size, d);
        let before = spec_missing_parts(file, size, d);
        let all = spec_missing_parts(file, size, completed);
        assert(all.drop_last() =~= before);
        assert((k - 1) * 1048576 < size) by (nonlinear_arith)
            requires
                k <= size / 1048576 + if size % 1048576 > 0 { 1nat } else { 0nat },
                k >= 1,
        {
            if size % 1048576 > 0 {
                assert(k - 1 <= size / 1048576);
            } else {
                assert(k - 1 < size / 1048576);
            }
        }
    }
}

/// Of a file with no completed part, the parts to download cover the whole
/// file: one part per `PART_SIZE` bytes, adding up to its size.
pub proof fn law_fresh_file_is_downloaded_whole(file: Seq<char>, size: nat, completed: Seq<u8>)
    requires
        completed.len() == spec_parts_amount(size),
        forall|i: int| 0 <= i < completed.len() ==> completed[i] == 0,
    ensures
        spec_missing_parts(file, size, completed).len() == spec_parts_amount(size),
        spec_parts_bytes(spec_missing_parts(file, size, completed)) == size,
{
    lemma_fresh_parts_bytes(file, size, completed);
    assert(PART_SIZE == 1048576);
    assert(spec_parts_amount(size) * 1048576 >= size) by (nonlinear_arith)
        requires
            spec_parts_amount(size) == size / 1048576 + if size % 1048576 > 0 { 1nat } else { 0nat },
    {}
}

/// Whatever is observed of a file, a download planned for it produces the
/// file's newest version at its own path, and a file that is to be deleted
/// (no newest hash) is never downloaded.
pub proof fn law_downloads_target_newest_hash(
    game_location: Seq<char>,
    i: InstructionView,
    path_exists: bool,
    path_hash: Option<Seq<char>>,
    backup_exists: bool,
    backup_hash: Option<Seq<char>>,
)
    ensures
        spec_action_plan(game_location, i, path_exists, path_hash, backup_exists, backup_hash).action
            matches Some(ActionView::Download(e)) ==> {
            &&& i.newest_hash == Some(e.target_hash)
            &&& e.target_path == spec_target_path(game_location, i)
        },
        i.newest_hash is None ==> !(spec_action_plan(game_location, i, path_exists, path_hash, backup_exists,
            backup_hash).action matches Some(ActionView::Download(_))),
{
}

/// A file that is already at its newest version is kept: nothing is
/// downloaded for it and it is not deleted (only a stale backup may be).
pub proof fn law_up_to_date_file_is_kept(
    game_location: Seq<char>,
    i: InstructionView,
    path_hash: Option<Seq<char>>,
    backup_exists: bool,
    backup_hash: Option<Seq<char>>,
)
    requires
        i.newest_hash is Some,
        path_hash == i.newest_hash,
    ensures
        ({
            let plan = spec_action_plan(game_location, i, true, path_hash, backup_exists, backup_hash);
            &&& plan.effects.len() == 0
            &&& plan.action == Some(if backup_exists {
                ActionView::Delete(spec_target_path(game_location, i) + ".bck"@)
            } else {
                ActionView::Nothing
            })
        }),
{
}

/// Disabling a mirror, stopping to hand it out or counting one of its
/// failures keeps it in the list: the list keeps its length, so a list that
/// was not empty stays so however many mirrors are disabled.
pub proof fn law_disabled_mirrors_still_count(s: Seq<MirrorView>, i: int)
    requires
        0 <= i < s.len(),
    ensures
        s.update(i, MirrorView { enabled: false, ..s[i] }).len() == s.len(),
        s.update(i, MirrorView {
            error_count: if s[i].error_count == u16::MAX { 0 } else { (s[i].error_count + 1) as u16 },
            enabled: s[i].enabled && s[i].error_count != 3,
            ..s[i]
        }).len() == s.len(),
        s.update(i, MirrorView { enabled: false, ..s[i] }).len() != 0,
{
}

/// A change to the mirror at a position, as one of `disable`, `remove` and
/// `increment_error_count` makes it.
pub enum MirrorChange {
    /// `disable` of the mirror at this position.
    Disable(int),
    /// `remove` of the mirror at this position.
    Remove(int),
    /// `increment_error_count` of the mirror at this position.
    Failure(int),
}

/// The position a change is made at.
pub open spec fn spec_change_at(c: MirrorChange) -> int {
    match c {
        MirrorChange::Disable(i) => i,
        MirrorChange::Remove(i) => i,
        MirrorChange::Failure(i) => i,
    }
}

/// The mirrors after one change, as the operation's contract states it.
pub open spec fn spec_change(s: Seq<MirrorView>, c: MirrorChange) -> Seq<MirrorView> {
    match c {
        MirrorChange::Disable(i) => s.update(i, MirrorView { enabled: false, ..s[i] }),
        MirrorChange::Remove(i) => s.update(i, MirrorView { enabled: false, ..s[i] }),
        MirrorChange::Failure(i) => s.update(i, MirrorView {
            error_count: if s[i].error_count == u16::MAX { 0 } else { (s[i].error_count + 1) as u16 },
            enabled: s[i].enabled && s[i].error_count != 3,
            ..s[i]
        }),
    }
}

/// The mirrors after a series of changes, made in order.
pub open spec fn spec_changes(s: Seq<MirrorView>, cs: Seq<MirrorChange>) -> Seq<MirrorView>
    decreases cs.len(),
{
    if cs.len() == 0 {
        s
    } else {
        spec_change(spec_changes(s, cs.drop_last()), cs.last())
    }
}

/// However many mirrors are disabled, removed or counted as failing, in
/// whatever order, the list keeps its length: `is_empty` answers after the
/// series as it did before, so a list that had mirrors is never empty.
pub proof fn law_is_empty_survives_any_changes(s: Seq<MirrorView>, cs: Seq<MirrorChange>)
    requires
        forall|j: int| 0 <= j < cs.len() ==> 0 <= #[trigger] spec_change_at(cs[j]) < s.len(),
    ensures
        spec_changes(s, cs).len() == s.len(),
        (spec_changes(s, cs).len() == 0) == (s.len() == 0),
    decreases cs.len(),
{
    if cs.len() > 0 {
        let rest = cs.drop_last();
        assert forall|j: int| 0 <= j < rest.len() implies 0 <= #[trigger] spec_change_at(rest[j]) < s.len() by {
            assert(rest[j] == cs[j]);
        }
        law_is_empty_survives_any_changes(s, rest);
        assert(0 <= spec_change_at(cs[cs.len() - 1]) < s.len());
    }
}

/// Two files that cannot be opened and have the same newest hash `key`, for
/// which nothing was planned yet, share one download: it is planned by the
/// first, with the size and patch-file hash of the first, and both patches
/// wait for it in order; the download total grows once, the patch count by two.
pub proof fn law_two_missing_files_share_one_download(
    p: PlannerView,
    first: InstructionView,
    second: InstructionView,
    key: Seq<char>,
)
    requires
        first.newest_hash == Some(key),
        second.newest_hash == Some(key),
        first.full_vcdiff_hash is Some,
        spec_find_download(p.downloads, key) is None,
    ensures
        ({
            let q = spec_process(spec_process(p, first, false), second, false);
            let path = spec_delta_path(p.renegadex_location, key);
            let patch = |i: InstructionView| PatchEntryView { target_path: i.path, delta_path: path,
                has_source: false, target_hash: key };
            &&& q.downloads.len() == p.downloads.len() + 1
            &&& spec_find_download(q.downloads, key) == Some(p.downloads.len() as int)
            &&& q.downloads.subrange(0, p.downloads.len() as int) == p.downloads
            &&& q.downloads[p.downloads.len() as int] == (key, DownloadEntryView {
                file_path: path,
                file_size: first.full_vcdiff_size,
                file_hash: first.full_vcdiff_hash->0,
                patch_entries: seq![patch(first), patch(second)],
            })
            &&& q.state.download_size == (p.state.download_size.0,
                (p.state.download_size.1 + first.full_vcdiff_size) as u64)
            &&& q.state.patch_files == (p.state.patch_files.0,
                (((p.state.patch_files.1 + 1) as u64) + 1) as u64)
            &&& q.hash_queue == p.hash_queue
        }),
{
    let path = spec_delta_path(p.renegadex_location, key);
    let n = p.downloads.len() as int;
    let entry = DownloadEntryView {
        file_path: path,
        file_size: first.full_vcdiff_size,
        file_hash: first.full_vcdiff_hash->0,
        patch_entries: Seq::empty(),
    };
    let pushed = p.downloads.push((key, entry));
    lemma_find_download(p.downloads, key);
    lemma_find_download(pushed, key);
    assert(spec_find_download(pushed, key) == Some(n)) by {
        assert(pushed[n].0 == key);
        assert forall|j: int| 0 <= j < n implies pushed[j].0 != key by { assert(pushed[j] == p.downloads[j]); }
        if let Some(i) = spec_find_download(pushed, key) {
            if i < n { assert(pushed[i] == p.downloads[i]); }
        }
    }
    let m = spec_process(p, first, false);
    assert(m.downloads.len() == n + 1);
    assert forall|j: int| 0 <= j < n + 1 implies m.downloads[j].0 == pushed[j].0 by {}
    lemma_find_download_same_hashes(m.downloads, pushed, key);
    let q = spec_process(m, second, false);
    assert(q.downloads.len() == n + 1);
    assert forall|j: int| 0 <= j < n + 1 implies q.downloads[j].0 == m.downloads[j].0 by {}
    lemma_find_download_same_hashes(q.downloads, m.downloads, key);
    assert(q.downloads.subrange(0, n) =~= p.downloads) by {
        assert forall|j: int| 0 <= j < n implies q.downloads[j] == p.downloads[j] by {
            assert(m.downloads[j] == pushed[j]);
            assert(pushed[j] == p.downloads[j]);
        }
    }
    assert(m.downloads[n].1.patch_entries =~= seq![PatchEntryView { target_path: first.path, delta_path: path,
        has_source: false, target_hash: key }]);
    assert(q.downloads[n].1.patch_entries =~= seq![
        PatchEntryView { target_path: first.path, delta_path: path, has_source: false, target_hash: key },
        PatchEntryView { target_path: second.path, delta_path: path, has_source: false, target_hash: key },
    ]);
}

/// The directory of every instruction's file is a versioned directory.
proof fn lemma_own_dir_versioned(instructions: Seq<InstructionView>, root: Seq<Seq<char>>, k: int)
    requires
        0 <= k < instructions.len(),
    ensures
        spec_versioned_dir(instructions, root, spec_dirs_of(spec_relative(root, instructions[k].path))),
    decreases instructions.len(),
{
    let q = spec_dirs_of(spec_relative(root, instructions[k].path));
    if k == instructions.len() - 1 {
        assert(q.subrange(0, q.len() as int) =~= q);
        assert(spec_is_prefix(q, q));
    } else {
        let d = instructions.drop_last();
        assert(d[k] == instructions[k]);
        lemma_own_dir_versioned(d, root, k);
    }
}

/// The files recorded for directory `q` are the relative paths of the
/// instructions with a newest hash whose directory is `q`.
proof fn lemma_versioned_files(instructions: Seq<InstructionView>, root: Seq<Seq<char>>, q: Seq<Seq<char>>, f: Seq<Seq<char>>)
    ensures
        spec_versioned_files_at(instructions, root, q).contains(f) <==> exists|k: int| {
            &&& 0 <= k < instructions.len()
            &&& (#[trigger] instructions[k]).newest_hash is Some
            &&& spec_dirs_of(spec_relative(root, instructions[k].path)) == q
            &&& spec_relative(root, instructions[k].path) == f
        },
    decreases instructions.len(),
{
    if instructions.len() > 0 {
        let d = instructions.drop_last();
        lemma_versioned_files(d, root, q, f);
        let before = spec_versioned_files_at(d, root, q);
        let last = instructions.last();
        let rel = spec_relative(root, last.path);
        let n = instructions.len() - 1;
        let cond = last.newest_hash is Some && spec_dirs_of(rel) == q;
        let ed = exists|k: int| 0 <= k < d.len() && (#[trigger] d[k]).newest_hash is Some
            && spec_dirs_of(spec_relative(root, d[k].path)) == q && spec_relative(root, d[k].path) == f;
        let e = exists|k: int| {
            &&& 0 <= k < instructions.len()
            &&& (#[trigger] instructions[k]).newest_hash is Some
            &&& spec_dirs_of(spec_relative(root, instructions[k].path)) == q
            &&& spec_relative(root, instructions[k].path) == f
        };
        assert(e <==> (ed || (cond && rel == f))) by {
            if ed {
                let k = choose|k: int| 0 <= k < d.len() && (#[trigger] d[k]).newest_hash is Some
                    && spec_dirs_of(spec_relative(root, d[k].path)) == q && spec_relative(root, d[k].path) == f;
                assert(instructions[k] == d[k]);
            }
            if cond && rel == f {
                assert(instructions[n] == last);
            }
            if e {
                let k = choose|k: int| {
                    &&& 0 <= k < instructions.len()
                    &&& (#[trigger] instructions[k]).newest_hash is Some
                    &&& spec_dirs_of(spec_relative(root, instructions[k].path)) == q
                    &&& spec_relative(root, instructions[k].path) == f
                };
                if k < n {
                    assert(d[k] == instructions[k]);
                }
            }
        }
        if cond {
            assert(spec_versioned_files_at(instructions, root, q) == before.push(rel));
            assert(before.push(rel).contains(f) <==> (before.contains(f) || rel == f)) by {
                if before.push(rel).contains(f) {
                    let j = choose|j: int| 0 <= j < before.push(rel).len() && before.push(rel)[j] == f;
                    if j < before.len() { assert(before[j] == f); }
                }
                if before.contains(f) {
                    let j = choose|j: int| 0 <= j < before.len() && before[j] == f;
                    assert(before.push(rel)[j] == f);
                }
                if rel == f {
                    assert(before.push(rel)[before.len() as int] == f);
                }
            }
        } else {
            assert(spec_versioned_files_at(instructions, root, q) == before);
        }
    }
}

/// The tree built from the instructions answers as they version it: the
/// directory of a kept file exists and holds that file, and no other file
/// is held anywhere.
pub proof fn law_directory_tree_answers_as_versioned(
    d: Directory,
    instructions: Seq<InstructionView>,
    root: Seq<Seq<char>>,
    f: Seq<Seq<char>>,
)
    requires
        spec_versioned_tree(d, instructions, root),
        f.len() > 0,
    ensures
        d.spec_files_at(f.drop_last()).contains(f) <==> exists|k: int| {
            &&& 0 <= k < instructions.len()
            &&& (#[trigger] instructions[k]).newest_hash is Some
            &&& spec_relative(root, instructions[k].path) == f
        },
        forall|k: int| 0 <= k < instructions.len() && spec_relative(root, #[trigger] instructions[k].path).len() > 0
            ==> d.spec_has_dir(spec_relative(root, instructions[k].path).drop_last()),
{
    assert(d.spec_files_at(f.drop_last()) == spec_versioned_files_at(instructions, root, f.drop_last()));
    lemma_versioned_files(instructions, root, f.drop_last(), f);
    assert forall|k: int| 0 <= k < instructions.len() && spec_relative(root, #[trigger] instructions[k].path).len() > 0
        implies d.spec_has_dir(spec_relative(root, instructions[k].path).drop_last()) by {
        lemma_own_dir_versioned(instructions, root, k);
        let rel = spec_relative(root, instructions[k].path);
        assert(d.spec_has_dir(spec_dirs_of(rel)) == spec_versioned_dir(instructions, root, spec_dirs_of(rel)));
    }
}

/// The tree built from the instructions holds exactly the files they keep:
/// for every instruction with a newest hash, the directory of its path
/// (relative to the root) exists and holds that file; every other file, in
/// any directory, is not held.
pub proof fn law_directory_tree_holds_exactly_the_kept_files(
    d: Directory,
    instructions: Seq<InstructionView>,
    root: Seq<Seq<char>>,
)
    requires
        spec_versioned_tree(d, instructions, root),
    ensures
        forall|k: int| 0 <= k < instructions.len() && (#[trigger] instructions[k]).newest_hash is Some
            && spec_relative(root, instructions[k].path).len() > 0 ==> {
                let rel = spec_relative(root, instructions[k].path);
                &&& d.spec_has_dir(rel.drop_last())
                &&& d.spec_files_at(rel.drop_last()).contains(rel)
            },
        forall|f: Seq<Seq<char>>| f.len() > 0 && !(exists|k: int| {
            &&& 0 <= k < instructions.len()
            &&& (#[trigger] instructions[k]).newest_hash is Some
            &&& spec_relative(root, instructions[k].path) == f
        }) ==> !(#[trigger] d.spec_files_at(f.drop_last()).contains(f)),
{
    assert forall|k: int| 0 <= k < instructions.len() && (#[trigger] instructions[k]).newest_hash is Some
        && spec_relative(root, instructions[k].path).len() > 0 implies {
            let rel = spec_relative(root, instructions[k].path);
            &&& d.spec_has_dir(rel.drop_last())
            &&& d.spec_files_at(rel.drop_last()).contains(rel)
        } by {
        let rel = spec_relative(root, instructions[k].path);
        law_directory_tree_answers_as_versioned(d, instructions, root, rel);
    }
    assert forall|f: Seq<Seq<char>>| f.len() > 0 && !(exists|k: int| {
        &&& 0 <= k < instructions.len()
        &&& (#[trigger] instructions[k]).newest_hash is Some
        &&& spec_relative(root, instructions[k].path) == f
    }) implies !(#[trigger] d.spec_files_at(f.drop_last()).contains(f)) by {
        law_directory_tree_answers_as_versioned(d, instructions, root, f);
    }
}

/// The tree built from the instructions answers the queries on it as they
/// version the files: for a kept file `directory_exists` holds for its
/// directory and `file_exists` answers `true`; for any other file with a
/// file name, but `InstallInfo.xml`, it answers `false`.
pub proof fn law_directory_tree_answers_queries(
    d: Directory,
    instructions: Seq<InstructionView>,
    root: Seq<Seq<char>>,
)
    requires
        spec_versioned_tree(d, instructions, root),
    ensures
        spec_tree_answers(d, instructions, root),
{
    law_directory_tree_holds_exactly_the_kept_files(d, instructions, root);
    assert forall|f: Seq<Seq<char>>| spec_has_file_name(f) && spec_kept(instructions, root, f)
        implies d.spec_has_dir(f.drop_last()) && #[trigger] d.spec_file_exists(f) == Some(true) by {
        let k = choose|k: int| {
            &&& 0 <= k < instructions.len()
            &&& (#[trigger] instructions[k]).newest_hash is Some
            &&& spec_relative(root, instructions[k].path) == f
        };
        assert(instructions[k].newest_hash is Some);
    }
}

/// Asking twice for a subdirectory of one name adds it at most once: the
/// second request finds the first one, and the names are as after one request.
pub proof fn law_create_twice_adds_once(names: Seq<Seq<char>>, name: Seq<char>)
    ensures
        spec_after_create(spec_after_create(names, name), name) == spec_after_create(names, name),
        spec_after_create(names, name).contains(name),
        spec_after_create(names, name).len() <= names.len() + 1,
{
    if !names.contains(name) {
        assert(names.push(name)[names.len() as int] == name);
    }
}

/// The bytes a series of writes reported: of each `datas[i]`, its first
/// `counts[i]` bytes, in order.
pub open spec fn spec_delivered(datas: Seq<Seq<u8>>, counts: Seq<nat>) -> Seq<u8>
    decreases datas.len(),
{
    if datas.len() == 0 || counts.len() == 0 {
        Seq::empty()
    } else {
        spec_delivered(datas.drop_last(), counts.drop_last())
            + datas.last().subrange(0, counts.last() as int)
    }
}

proof fn lemma_outputs_accumulate<W: ByteSink, F: FnMut(&mut W, &mut u64)>(
    states: Seq<BufWriter<W, F>>,
    datas: Seq<Seq<u8>>,
    counts: Seq<nat>,
    k: int,
)
    requires
        datas.len() == counts.len(),
        states.len() >= datas.len() + 1,
        0 <= k <= datas.len(),
        forall|i: int| #![trigger datas[i]] 0 <= i < datas.len() ==> counts[i] <= datas[i].len()
            && states[i + 1].output() == states[i].output() + datas[i].subrange(0, counts[i] as int),
    ensures
        states[k].output() == states[0].output() + spec_delivered(datas.take(k), counts.take(k)),
    decreases k,
{
    if k == 0 {
        assert(states[0].output() =~= states[0].output() + Seq::<u8>::empty());
    } else {
        lemma_outputs_accumulate(states, datas, counts, k - 1);
        assert(datas.take(k).drop_last() =~= datas.take(k - 1));
        assert(counts.take(k).drop_last() =~= counts.take(k - 1));
        let _ = datas[k - 1];
        assert(states[k].output() =~= states[0].output() + spec_delivered(datas.take(k), counts.take(k)));
    }
}

/// Nothing is lost, duplicated or reordered by the buffer: after a series of
/// writes, each of which put out the bytes it reported (as `write` does when
/// the callback leaves the sink's bytes alone), and a flush that kept that
/// output and emptied the buffer (as a successful `flush` does), the sink
/// holds what the writer had put out before, then the reported bytes of
/// every write, in order.
pub proof fn law_writes_then_flush_deliver_in_order<W: ByteSink, F: FnMut(&mut W, &mut u64)>(
    states: Seq<BufWriter<W, F>>,
    datas: Seq<Seq<u8>>,
    counts: Seq<nat>,
)
    requires
        datas.len() == counts.len(),
        states.len() == datas.len() + 2,
        forall|i: int| #![trigger datas[i]] 0 <= i < datas.len() ==> counts[i] <= datas[i].len()
            && states[i + 1].output() == states[i].output() + datas[i].subrange(0, counts[i] as int),
        states[datas.len() as int + 1].output() == states[datas.len() as int].output(),
        states[datas.len() as int + 1].buffered().len() == 0,
    ensures
        states[datas.len() as int + 1].inner().accepted() == states[0].output() + spec_delivered(datas, counts),
{
    let n = datas.len() as int;
    lemma_outputs_accumulate(states, datas, counts, n);
    assert(datas.take(n) =~= datas);
    assert(counts.take(n) =~= counts);
    assert(states[n + 1].output() =~= states[n + 1].inner().accepted());
}

/// Every download a decision plans brings the instruction's newest file to
/// its path, from a patch file stored under its own hash. It is either the
/// full file, with nothing restored first, or the delta from the previous
/// version, planned only when the file it patches is that previous version:
/// the installed file has the previous hash and nothing is done first, or
/// the backup has it and is restored (and nothing else done) first.
pub proof fn law_download_patches_a_known_source(
    game_location: Seq<char>,
    i: InstructionView,
    path_exists: bool,
    path_hash: Option<Seq<char>>,
    backup_exists: bool,
    backup_hash: Option<Seq<char>>,
)
    ensures
        ({
            let plan = spec_action_plan(game_location, i, path_exists, path_hash, backup_exists, backup_hash);
            let t = game_location + i.path;
            match plan.action {
                Some(ActionView::Download(e)) => {
                    &&& i.newest_hash == Some(e.target_hash)
                    &&& e.target_path == t
                    &&& e.download_path == game_location + "patcher/"@ + e.download_hash
                    &&& ({
                        ||| {
                            &&& i.full_vcdiff_hash == Some(e.download_hash)
                            &&& e.mirror_path == "full/"@ + e.target_hash
                            &&& e.download_size == i.full_vcdiff_size
                            &&& forall|k: int| 0 <= k < plan.effects.len() ==> (#[trigger] plan.effects[k]) is DeleteFile
                        }
                        ||| {
                            &&& i.has_delta
                            &&& i.previous_hash is Some
                            &&& i.delta_vcdiff_hash == Some(e.download_hash)
                            &&& e.mirror_path == "delta/"@ + e.target_hash + "_from_"@ + i.previous_hash->0
                            &&& e.download_size == i.delta_vcdiff_size
                            &&& ((path_exists && path_hash == i.previous_hash && plan.effects.len() == 0)
                                || (backup_exists && backup_hash == i.previous_hash
                                    && plan.effects == seq![EffectView::RestoreBackup(t)]))
                        }
                    })
                },
                _ => true,
            }
        }),
{
}

/// How many of the first `j` URLs resolved.
pub open spec fn spec_resolved_before(resolved: Seq<Option<Seq<Seq<char>>>>, j: int) -> nat
    decreases j,
{
    if j <= 0 {
        0
    } else {
        spec_resolved_before(resolved, j - 1) + if resolved[j - 1] is Some { 1nat } else { 0nat }
    }
}

proof fn lemma_resolved_before_prefix(resolved: Seq<Option<Seq<Seq<char>>>>, n: int, j: int)
    requires
        0 <= j <= n <= resolved.len(),
    ensures
        spec_resolved_before(resolved.subrange(0, n), j) == spec_resolved_before(resolved, j),
    decreases j,
{
    if j > 0 {
        lemma_resolved_before_prefix(resolved, n, j - 1);
    }
}

proof fn lemma_resolved_before_bound(resolved: Seq<Option<Seq<Seq<char>>>>, j: int, k: int)
    requires
        0 <= j <= k <= resolved.len(),
    ensures
        spec_resolved_before(resolved, j) <= spec_resolved_before(resolved, k),
        j < k && resolved[j] is Some ==> spec_resolved_before(resolved, j) < spec_resolved_before(resolved, k),
    decreases k,
{
    if j < k {
        lemma_resolved_before_bound(resolved, j, k - 1);
    }
}

/// The mirror list holds one mirror per URL that resolved, in the order of
/// the URLs: the mirror of the `j`-th URL comes after those of the resolved
/// URLs before it, sits in that slot, and keeps its URL, the version and
/// exactly the addresses its URL resolved to; it starts enabled, unused and
/// without errors.
pub proof fn law_mirrors_keep_their_resolved_addresses(
    urls: Seq<Seq<char>>,
    resolved: Seq<Option<Seq<Seq<char>>>>,
    version: Seq<char>,
)
    requires
        urls.len() == resolved.len(),
    ensures
        spec_initial_mirrors(urls, resolved, version).len() == spec_resolved_before(resolved, resolved.len() as int),
        forall|j: int| 0 <= j < urls.len() && (#[trigger] resolved[j]) is Some ==> {
            let k = spec_resolved_before(resolved, j) as int;
            let m = spec_initial_mirrors(urls, resolved, version)[k];
            &&& m.ip == resolved[j]->0
            &&& m.base == urls[j]
            &&& m.version == version
            &&& m.slot == k
            &&& m.enabled
            &&& m.error_count == 0
            &&& m.in_use == 0
        },
    decreases urls.len(),
{
    let n = urls.len() as int;
    if n > 0 {
        let u = urls.drop_last();
        let r = resolved.subrange(0, n - 1);
        law_mirrors_keep_their_resolved_addresses(u, r, version);
        lemma_resolved_before_prefix(resolved, n - 1, n - 1);
        let before = spec_initial_mirrors(u, r, version);
        assert forall|j: int| 0 <= j < urls.len() && (#[trigger] resolved[j]) is Some implies {
            let k = spec_resolved_before(resolved, j) as int;
            let m = spec_initial_mirrors(urls, resolved, version)[k];
            &&& m.ip == resolved[j]->0
            &&& m.base == urls[j]
            &&& m.version == version
            &&& m.slot == k
            &&& m.enabled
            &&& m.error_count == 0
            &&& m.in_use == 0
        } by {
            if j < n - 1 {
                assert(r[j] == resolved[j]);
                assert(u[j] == urls[j]);
                lemma_resolved_before_prefix(resolved, n - 1, j);
                lemma_resolved_before_bound(resolved, j, n - 1);
            }
        }
    }
}

/// A decimal digit.
pub open spec fn spec_is_digit_char(c: char) -> bool {
    '0' <= c && c <= '9'
}

/// The number a string of decimal digits stands for.
pub open spec fn spec_natural(s: Seq<char>) -> int
    decreases s.len(),
{
    if s.len() == 0 {
        0
    } else {
        spec_natural(s.drop_last()) * 10 + (s.last() as int - 48)
    }
}

/// A whole number written in decimal digits without leading zeros.
pub open spec fn spec_integer_text(s: Seq<char>) -> bool {
    &&& s.len() > 0
    &&& forall|k: int| 0 <= k < s.len() ==> spec_is_digit_char(#[trigger] s[k])
    &&& (s.len() == 1 || s[0] != '0')
}

/// Reads `t` as a number with at most two decimals, written without trailing
/// zeros in its fraction (`7`, `1.5`, `1.05`), in hundredths; `None` for any
/// other text.
pub open spec fn spec_read_hundredths(t: Seq<char>) -> Option<int> {
    let n = t.len() as int;
    if n >= 3 && t[n - 3] == '.' && spec_integer_text(t.take(n - 3)) && spec_is_digit_char(t[n - 2])
        && spec_is_digit_char(t[n - 1]) && t[n - 1] != '0' {
        Some(spec_natural(t.take(n - 3)) * 100 + (t[n - 2] as int - 48) * 10 + (t[n - 1] as int - 48))
    } else if n >= 2 && t[n - 2] == '.' && spec_integer_text(t.take(n - 2)) && spec_is_digit_char(t[n - 1])
        && t[n - 1] != '0' {
        Some(spec_natural(t.take(n - 2)) * 100 + (t[n - 1] as int - 48) * 10)
    } else if spec_integer_text(t) {
        Some(spec_natural(t) * 100)
    } else {
        None
    }
}

proof fn lemma_digit_char(k: nat)
    requires
        k < 10,
    ensures
        spec_is_digit_char(spec_digit(k)),
        spec_digit(k) as int - 48 == k,
        k > 0 ==> spec_digit(k) != '0',
{
    assert(spec_digit(k) as int == k + 48);
}

proof fn lemma_decimal_reads(n: nat)
    ensures
        spec_integer_text(spec_decimal(n)),
        spec_natural(spec_decimal(n)) == n,
        n > 0 ==> spec_decimal(n)[0] != '0',
    decreases n,
{
    if n < 10 {
        lemma_digit_char(n);
        let d = spec_decimal(n);
        assert(d.drop_last() =~= Seq::<char>::empty());
        assert(spec_natural(Seq::<char>::empty()) == 0);
        assert(spec_natural(d) == spec_natural(d.drop_last()) * 10 + (d.last() as int - 48));
    } else {
        lemma_decimal_reads(n / 10);
        lemma_digit_char(n % 10);
        let p = spec_decimal(n / 10);
        let d = spec_decimal(n);
        assert(d == p.push(spec_digit(n % 10)));
        assert(d.drop_last() =~= p);
        assert(spec_natural(d) == spec_natural(p) * 10 + (spec_digit(n % 10) as int - 48));
        assert(spec_natural(p) * 10 + (n % 10) as int == n) by (nonlinear_arith)
            requires spec_natural(p) == n / 10;
        assert(d[0] == p[0]);
        assert forall|k: int| 0 <= k < d.len() implies spec_is_digit_char(#[trigger] d[k]) by {
            if k < p.len() { assert(d[k] == p[k]); }
        }
    }
}

proof fn lemma_hundredths_read_back(h: nat)
    ensures
        spec_read_hundredths(spec_hundredths_text(h)) == Some(h as int),
{
    let d = spec_decimal(h / 100);
    let frac = h % 100;
    lemma_decimal_reads(h / 100);
    let t = spec_hundredths_text(h);
    let n = t.len() as int;
    if frac == 0 {
        assert(t == d + Seq::<char>::empty());
        assert(t =~= d);
        if n >= 3 { assert(spec_is_digit_char(t[n - 3])); }
        if n >= 2 { assert(spec_is_digit_char(t[n - 2])); }
    } else if frac % 10 == 0 {
        lemma_digit_char(frac / 10);
        assert(t == d + seq!['.', spec_digit(frac / 10)]);
        assert(t.take(n - 2) =~= d);
        assert(t[n - 2] == '.');
        assert(t[n - 1] == spec_digit(frac / 10));
        assert(t[n - 3] == d.last());
        assert(spec_is_digit_char(d[d.len() - 1]));
    } else {
        lemma_digit_char(frac / 10);
        lemma_digit_char(frac % 10);
        assert(t == d + seq!['.', spec_digit(frac / 10), spec_digit(frac % 10)]);
        assert(t.take(n - 3) =~= d);
        assert(t[n - 3] == '.');
        assert(t[n - 2] == spec_digit(frac / 10));
        assert(t[n - 1] == spec_digit(frac % 10));
    }
}

proof fn lemma_pow_grows(e: nat)
    ensures
        spec_pow1000(e) >= 1,
        e >= 7 ==> spec_pow1000(e) >= 1_000_000_000_000_000_000_000,
    decreases e,
{
    if e > 0 {
        lemma_pow_grows((e - 1) as nat);
        if e == 7 {
            assert(spec_pow1000(7) == 1_000_000_000_000_000_000_000) by { reveal_with_fuel(spec_pow1000, 8); }
        }
    }
}

proof fn lemma_exponent_brackets(a: nat)
    requires
        a >= 1,
    ensures
        spec_pow1000(spec_exponent(a)) <= a,
        a < 1000 * spec_pow1000(spec_exponent(a)),
    decreases a,
{
    if a >= 1000 {
        let q = a / 1000;
        lemma_exponent_brackets(q);
        let p = spec_pow1000(spec_exponent(q));
        assert(spec_pow1000(spec_exponent(a)) == 1000 * p);
        assert(1000 * p <= a && a < 1000 * (1000 * p)) by (nonlinear_arith)
            requires p <= q, q < 1000 * p, q == a / 1000;
    }
}

/// The human readable form of a byte count, read back, gives the count: the
/// sign is `-` exactly for counts that are not positive; below 1000 bytes
/// the count itself is written in digits before `.00 B`; from 1000 on, the
/// unit is the largest power of 1000 (up to `EB`) that fits in the count,
/// and the number written before it, read as a decimal with at most two
/// fraction digits and no trailing zeros, is the count in that unit rounded
/// to the nearest hundredth (halves up).
pub proof fn law_bytesize_reads_back(num: int)
    requires
        i64::MIN < num <= i64::MAX,
    ensures
        ({
            let out = spec_human_readable_bytesize(num);
            let sign = if num > 0 { Seq::<char>::empty() } else { seq!['-'] };
            let a = if num < 0 { -num } else { num };
            let units = seq!["B"@, "kB"@, "MB"@, "GB"@, "TB"@, "PB"@, "EB"@];
            &&& a < 1000 ==> exists|t: Seq<char>| {
                &&& out == sign + t + ".00 B"@
                &&& spec_integer_text(t)
                &&& spec_natural(t) == a
            }
            &&& a >= 1000 ==> exists|t: Seq<char>, e: nat|
                #![trigger spec_read_hundredths(t), spec_pow1000(e)]
                {
                &&& 1 <= e <= 6
                &&& spec_pow1000(e) <= a < 1000 * spec_pow1000(e)
                &&& out == sign + t + " "@ + units[e as int]
                &&& spec_read_hundredths(t) matches Some(h)
                &&& 2 * h * spec_pow1000(e) <= 200 * a + spec_pow1000(e) < 2 * h * spec_pow1000(e) + 2 * spec_pow1000(e)
            }
        }),
{
    let out = spec_human_readable_bytesize(num);
    let sign = if num > 0 { Seq::<char>::empty() } else { seq!['-'] };
    let a = if num < 0 { -num } else { num };
    let units = seq!["B"@, "kB"@, "MB"@, "GB"@, "TB"@, "PB"@, "EB"@];
    if a < 1000 {
        lemma_decimal_reads(a as nat);
        let t = spec_decimal(a as nat);
        assert(out == sign + t + ".00 B"@);
        assert(spec_integer_text(t) && spec_natural(t) == a);
    } else {
        let e = spec_exponent(a as nat);
        let p = spec_pow1000(e);
        lemma_exponent_brackets(a as nat);
        lemma_pow_grows(e);
        assert(e >= 1) by {
            if e == 0 { assert(p == 1); }
        }
        assert(e <= 6) by {
            if e >= 7 { assert(p >= 1_000_000_000_000_000_000_000); }
        }
        let h = (a * 200 + p as int) / (2 * p as int);
        assert(2 * h * p <= 200 * a + p < 2 * h * p + 2 * p) by (nonlinear_arith)
            requires h == (a * 200 + p as int) / (2 * p as int), p >= 1, a >= 0;
        assert(h >= 0) by (nonlinear_arith)
            requires h == (a * 200 + p as int) / (2 * p as int), p >= 1, a >= 0;
        lemma_hundredths_read_back(h as nat);
        assert(spec_unit(e) == units[e as int]);
        let t = spec_hundredths_text(h as nat);
        assert(out == sign + t + " "@ + units[e as int]);
        assert(spec_read_hundredths(t) == Some(h));
        assert(1 <= e <= 6 && spec_pow1000(e) <= a < 1000 * spec_pow1000(e));
    }
}

/// What a decision does besides downloading. A file that the new version
/// drops is deleted if it is there, with its backup; no download is made for
/// it. A kept file is left alone only when it already is the newest version,
/// or when its backup is and is restored; what is deleted then is the backup
/// of an up-to-date file. And when the delta from the previous version can
/// be applied (to the installed file or to its backup, which has that
/// version), the delta is downloaded rather than the full file.
pub proof fn law_decision_ends_with_the_newest_file(
    game_location: Seq<char>,
    i: InstructionView,
    path_exists: bool,
    path_hash: Option<Seq<char>>,
    backup_exists: bool,
    backup_hash: Option<Seq<char>>,
)
    ensures
        ({
            let plan = spec_action_plan(game_location, i, path_exists, path_hash, backup_exists, backup_hash);
            let t = game_location + i.path;
            let b = t + ".bck"@;
            let up_to_date = i.newest_hash is Some && path_exists && path_hash == i.newest_hash;
            let backup_newest = i.newest_hash is Some && backup_exists && backup_hash == i.newest_hash;
            &&& i.newest_hash is None ==> {
                &&& plan.effects == (if backup_exists { seq![EffectView::DeleteFile(b)] } else { Seq::<EffectView>::empty() })
                &&& plan.action == Some(if path_exists { ActionView::Delete(t) } else { ActionView::Nothing })
            }
            &&& (plan.action == Some(ActionView::Nothing) && i.newest_hash is Some) ==> {
                ||| (up_to_date && !backup_exists && plan.effects.len() == 0)
                ||| (!up_to_date && backup_newest && plan.effects == seq![EffectView::RestoreBackup(t)])
            }
            &&& i.newest_hash is Some ==> match plan.action {
                Some(ActionView::Delete(x)) => up_to_date && backup_exists && x == b && plan.effects.len() == 0,
                _ => true,
            }
            &&& ({
                &&& i.newest_hash is Some
                &&& !up_to_date
                &&& !backup_newest
                &&& i.has_delta
                &&& i.previous_hash is Some
                &&& i.delta_vcdiff_hash is Some
                &&& ((path_exists && path_hash == i.previous_hash) || (backup_exists && backup_hash == i.previous_hash))
            }) ==> (plan.action matches Some(ActionView::Download(e))
                && e.mirror_path == "delta/"@ + i.newest_hash->0 + "_from_"@ + i.previous_hash->0)
        }),
{
}

} // verus!
