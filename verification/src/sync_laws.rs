//! What a sync achieves: applying the plan that [`diff_local_remote`]
//! computes, together with the downloads, leaves the local Maildir an exact
//! mirror of the remote account; and a second plan right after is empty.
//!
//! [`diff_local_remote`]: crate::sync::diff_local_remote
use vstd::prelude::*;
use crate::maildir::{LocalEntry, LocalEntryView};
use crate::strmap::StrMap;
use crate::sync::{
    changes_spec, deletes_spec, fetches_spec, flags_of, is_active_spec, stale_folders_spec,
    FetchItemView, LocalChangeView,
};
use crate::zoho::folders::FolderView;
use crate::zoho::messages::{RemoteMessage, RemoteMessageView};

verus! {

/// The local index after one change.
pub open spec fn apply_change(m: Map<Seq<char>, LocalEntryView>, c: LocalChangeView) -> Map<
    Seq<char>,
    LocalEntryView,
> {
    match c {
        LocalChangeView::Move { message_id, from, to, flags } => m.insert(
            message_id,
            LocalEntryView { maildir_name: to, flags },
        ),
        LocalChangeView::SetFlags { message_id, maildir_name, flags } => m.insert(
            message_id,
            LocalEntryView { maildir_name, flags },
        ),
        LocalChangeView::Delete { message_id, maildir_name } => m.remove(message_id),
    }
}

/// The local index after a sequence of changes, in order.
pub open spec fn apply_changes(m: Map<Seq<char>, LocalEntryView>, cs: Seq<LocalChangeView>) -> Map<
    Seq<char>,
    LocalEntryView,
>
    decreases cs.len(),
{
    if cs.len() == 0 {
        m
    } else {
        apply_change(apply_changes(m, cs.drop_last()), cs.last())
    }
}

/// The local index after a sequence of downloads, in order.
pub open spec fn apply_fetches(m: Map<Seq<char>, LocalEntryView>, fs: Seq<FetchItemView>) -> Map<
    Seq<char>,
    LocalEntryView,
>
    decreases fs.len(),
{
    if fs.len() == 0 {
        m
    } else {
        apply_fetches(m, fs.drop_last()).insert(
            fs.last().message_id,
            LocalEntryView { maildir_name: fs.last().maildir_name, flags: fs.last().flags },
        )
    }
}

/// Where and how a remote message is stored once mirrored.
pub open spec fn desired_entry(r: RemoteMessageView, folders: Map<Seq<char>, Seq<char>>) -> LocalEntryView {
    LocalEntryView { maildir_name: folders[r.folder_id], flags: flags_of(r) }
}

/// The local index that mirrors the remote messages: every remote message
/// in a known folder, stored in that folder with its flags; a remote message
/// in an unknown folder kept as it was where it was stored; nothing else.
pub open spec fn mirror_spec(
    remote: Map<Seq<char>, RemoteMessageView>,
    local: Map<Seq<char>, LocalEntryView>,
    folders: Map<Seq<char>, Seq<char>>,
) -> Map<Seq<char>, LocalEntryView> {
    Map::new(
        |id: Seq<char>|
            remote.contains_key(id) && (folders.contains_key(remote[id].folder_id) || local.contains_key(id)),
        |id: Seq<char>|
            if folders.contains_key(remote[id].folder_id) {
                desired_entry(remote[id], folders)
            } else {
                local[id]
            },
    )
}

/// Whether the keys of an entry sequence are distinct.
pub open spec fn keys_distinct<V>(s: Seq<(Seq<char>, V)>) -> bool {
    forall|i: int, j: int|
        0 <= i < s.len() && 0 <= j < s.len() && i != j ==> #[trigger] s[i].0 != #[trigger] s[j].0
}

/// The local index with the remote state written over every stored message
/// that the remote messages `rs` place in a known folder.
pub open spec fn override_spec(
    local: Map<Seq<char>, LocalEntryView>,
    rs: Seq<(Seq<char>, RemoteMessageView)>,
    folders: Map<Seq<char>, Seq<char>>,
) -> Map<Seq<char>, LocalEntryView>
    decreases rs.len(),
{
    if rs.len() == 0 {
        local
    } else {
        let o = override_spec(local, rs.drop_last(), folders);
        let id = rs.last().0;
        let r = rs.last().1;
        if folders.contains_key(r.folder_id) && local.contains_key(id) {
            o.insert(id, desired_entry(r, folders))
        } else {
            o
        }
    }
}

proof fn lemma_override_untouched(
    local: Map<Seq<char>, LocalEntryView>,
    rs: Seq<(Seq<char>, RemoteMessageView)>,
    folders: Map<Seq<char>, Seq<char>>,
    id: Seq<char>,
)
    requires
        forall|j: int| 0 <= j < rs.len() ==> (#[trigger] rs[j]).0 != id,
    ensures
        override_spec(local, rs, folders).contains_key(id) == local.contains_key(id),
        local.contains_key(id) ==> override_spec(local, rs, folders)[id] == local[id],
    decreases rs.len(),
{
    if rs.len() > 0 {
        let p = rs.drop_last();
        assert forall|j: int| 0 <= j < p.len() implies (#[trigger] p[j]).0 != id by {
            assert(p[j] == rs[j]);
        }
        lemma_override_untouched(local, p, folders, id);
        assert(rs.last() == rs[rs.len() - 1]);
    }
}

proof fn lemma_override_domain(
    local: Map<Seq<char>, LocalEntryView>,
    rs: Seq<(Seq<char>, RemoteMessageView)>,
    folders: Map<Seq<char>, Seq<char>>,
)
    ensures
        override_spec(local, rs, folders).dom() == local.dom(),
    decreases rs.len(),
{
    if rs.len() > 0 {
        lemma_override_domain(local, rs.drop_last(), folders);
        let o = override_spec(local, rs, folders);
        assert(o.dom() =~= local.dom());
    }
}

proof fn lemma_override_at(
    local: Map<Seq<char>, LocalEntryView>,
    rs: Seq<(Seq<char>, RemoteMessageView)>,
    folders: Map<Seq<char>, Seq<char>>,
    j: int,
)
    requires
        keys_distinct(rs),
        0 <= j < rs.len(),
        local.contains_key(rs[j].0),
    ensures
        override_spec(local, rs, folders)[rs[j].0] == if folders.contains_key(rs[j].1.folder_id) {
            desired_entry(rs[j].1, folders)
        } else {
            local[rs[j].0]
        },
    decreases rs.len(),
{
    let p = rs.drop_last();
    let id = rs[j].0;
    if j == rs.len() - 1 {
        assert forall|k: int| 0 <= k < p.len() implies (#[trigger] p[k]).0 != id by {
            assert(p[k] == rs[k]);
        }
        lemma_override_untouched(local, p, folders, id);
    } else {
        assert(keys_distinct(p)) by {
            assert forall|a: int, b: int| 0 <= a < p.len() && 0 <= b < p.len() && a != b implies #[trigger] p[a].0 != #[trigger] p[b].0 by {
                assert(p[a] == rs[a] && p[b] == rs[b]);
            }
        }
        assert(p[j] == rs[j]);
        lemma_override_at(local, p, folders, j);
        assert(rs.last().0 != id) by {
            assert(rs.last() == rs[rs.len() - 1]);
        }
    }
}

proof fn lemma_changes_are_override(
    local: Map<Seq<char>, LocalEntryView>,
    rs: Seq<(Seq<char>, RemoteMessageView)>,
    folders: Map<Seq<char>, Seq<char>>,
)
    requires
        keys_distinct(rs),
    ensures
        apply_changes(local, changes_spec(rs, local, folders)) == override_spec(local, rs, folders),
    decreases rs.len(),
{
    if rs.len() > 0 {
        let p = rs.drop_last();
        assert(keys_distinct(p)) by {
            assert forall|a: int, b: int| 0 <= a < p.len() && 0 <= b < p.len() && a != b implies #[trigger] p[a].0 != #[trigger] p[b].0 by {
                assert(p[a] == rs[a] && p[b] == rs[b]);
            }
        }
        lemma_changes_are_override(local, p, folders);
        let prev = changes_spec(p, local, folders);
        let o = override_spec(local, p, folders);
        let id = rs.last().0;
        let r = rs.last().1;
        if folders.contains_key(r.folder_id) && local.contains_key(id) {
            let target = folders[r.folder_id];
            let le = local[id];
            if le.maildir_name != target || le.flags != flags_of(r) {
                let cs = changes_spec(rs, local, folders);
                assert(cs.drop_last() == prev);
            } else {
                assert forall|k: int| 0 <= k < p.len() implies (#[trigger] p[k]).0 != id by {
                    assert(p[k] == rs[k]);
                    assert(rs.last() == rs[rs.len() - 1]);
                }
                lemma_override_untouched(local, p, folders, id);
                assert(o.insert(id, desired_entry(r, folders)) =~= o);
            }
        }
    }
}

proof fn lemma_apply_changes_concat(
    m: Map<Seq<char>, LocalEntryView>,
    a: Seq<LocalChangeView>,
    b: Seq<LocalChangeView>,
)
    ensures
        apply_changes(m, a + b) == apply_changes(apply_changes(m, a), b),
    decreases b.len(),
{
    if b.len() == 0 {
        assert(a + b =~= a);
    } else {
        lemma_apply_changes_concat(m, a, b.drop_last());
        assert((a + b).drop_last() =~= a + b.drop_last());
        assert((a + b).last() == b.last());
    }
}

proof fn lemma_deletes(
    m: Map<Seq<char>, LocalEntryView>,
    ls: Seq<(Seq<char>, LocalEntryView)>,
    remote: Map<Seq<char>, RemoteMessageView>,
    id: Seq<char>,
)
    ensures
        apply_changes(m, deletes_spec(ls, remote)).contains_key(id) == (m.contains_key(id) && !(
        !remote.contains_key(id) && exists|j: int| 0 <= j < ls.len() && (#[trigger] ls[j]).0 == id)),
        apply_changes(m, deletes_spec(ls, remote)).contains_key(id) ==> apply_changes(
            m,
            deletes_spec(ls, remote),
        )[id] == m[id],
    decreases ls.len(),
{
    if ls.len() > 0 {
        let p = ls.drop_last();
        lemma_deletes(m, p, remote, id);
        let d = deletes_spec(ls, remote);
        if !remote.contains_key(ls.last().0) {
            assert(d.drop_last() == deletes_spec(p, remote));
        }
        if exists|j: int| 0 <= j < p.len() && (#[trigger] p[j]).0 == id {
            let j = choose|j: int| 0 <= j < p.len() && (#[trigger] p[j]).0 == id;
            assert(ls[j] == p[j]);
        }
        if exists|j: int| 0 <= j < ls.len() && (#[trigger] ls[j]).0 == id {
            let j = choose|j: int| 0 <= j < ls.len() && (#[trigger] ls[j]).0 == id;
            if j < p.len() {
                assert(p[j] == ls[j]);
            } else {
                assert(ls.last() == ls[j]);
            }
        }
    }
}

proof fn lemma_fetches(
    m: Map<Seq<char>, LocalEntryView>,
    rs: Seq<(Seq<char>, RemoteMessageView)>,
    local: Map<Seq<char>, LocalEntryView>,
    folders: Map<Seq<char>, Seq<char>>,
    id: Seq<char>,
)
    requires
        keys_distinct(rs),
    ensures
        (exists|j: int| 0 <= j < rs.len() && (#[trigger] rs[j]).0 == id && folders.contains_key(rs[j].1.folder_id) && !local.contains_key(id)) ==> ({
            let j = choose|j: int| 0 <= j < rs.len() && (#[trigger] rs[j]).0 == id;
            &&& apply_fetches(m, fetches_spec(rs, local, folders)).contains_key(id)
            &&& apply_fetches(m, fetches_spec(rs, local, folders))[id] == desired_entry(rs[j].1, folders)
        }),
        !(exists|j: int| 0 <= j < rs.len() && (#[trigger] rs[j]).0 == id && folders.contains_key(rs[j].1.folder_id) && !local.contains_key(id)) ==> {
            &&& apply_fetches(m, fetches_spec(rs, local, folders)).contains_key(id) == m.contains_key(id)
            &&& m.contains_key(id) ==> apply_fetches(m, fetches_spec(rs, local, folders))[id] == m[id]
        },
    decreases rs.len(),
{
    if rs.len() > 0 {
        let p = rs.drop_last();
        assert(keys_distinct(p)) by {
            assert forall|a: int, b: int| 0 <= a < p.len() && 0 <= b < p.len() && a != b implies #[trigger] p[a].0 != #[trigger] p[b].0 by {
                assert(p[a] == rs[a] && p[b] == rs[b]);
            }
        }
        lemma_fetches(m, p, local, folders, id);
        let f = fetches_spec(rs, local, folders);
        let last = rs.last();
        assert(last == rs[rs.len() - 1]);
        if folders.contains_key(last.1.folder_id) && !local.contains_key(last.0) {
            assert(f.drop_last() == fetches_spec(p, local, folders));
        }
        if exists|j: int| 0 <= j < rs.len() && (#[trigger] rs[j]).0 == id {
            let j = choose|j: int| 0 <= j < rs.len() && (#[trigger] rs[j]).0 == id;
            if j < p.len() {
                assert(p[j] == rs[j]);
                let jp = choose|j: int| 0 <= j < p.len() && (#[trigger] p[j]).0 == id;
                assert(p[jp] == rs[jp]);
            }
        }
        if exists|j: int| 0 <= j < p.len() && (#[trigger] p[j]).0 == id {
            let jp = choose|j: int| 0 <= j < p.len() && (#[trigger] p[j]).0 == id;
            assert(p[jp] == rs[jp]);
        }
    }
}

/// Applying the local changes and then the downloads that the comparison of
/// `remote` with `local` calls for leaves the local index equal to the
/// mirror of the remote messages: each remote message in a known folder is
/// stored there with its flags, a remote message in an unknown folder stays
/// as it was, and every local message that the remote side lacks is gone.
pub proof fn lemma_sync_plan_mirrors_remote(
    remote: &StrMap<RemoteMessage>,
    local: &StrMap<LocalEntry>,
    folders: Map<Seq<char>, Seq<char>>,
)
    requires
        remote.wf(),
        local.wf(),
    ensures
        apply_fetches(
            apply_changes(
                local@,
                changes_spec(remote.entries(), local@, folders) + deletes_spec(local.entries(), remote@),
            ),
            fetches_spec(remote.entries(), local@, folders),
        ) == mirror_spec(remote@, local@, folders),
{
    remote.lemma_entries();
    local.lemma_entries();
    let rs = remote.entries();
    let ls = local.entries();
    let l = local@;
    let r = remote@;
    assert(keys_distinct(rs));
    lemma_changes_are_override(l, rs, folders);
    lemma_apply_changes_concat(l, changes_spec(rs, l, folders), deletes_spec(ls, r));
    let o = override_spec(l, rs, folders);
    let d = apply_changes(o, deletes_spec(ls, r));
    let fin = apply_fetches(d, fetches_spec(rs, l, folders));
    let want = mirror_spec(r, l, folders);
    lemma_override_domain(l, rs, folders);
    assert forall|id: Seq<char>| #[trigger] fin.contains_key(id) == want.contains_key(id) && (fin.contains_key(id) ==> fin[id] == want[id]) by {
        lemma_deletes(o, ls, r, id);
        lemma_fetches(d, rs, l, folders, id);
        assert(o.dom().contains(id) == l.dom().contains(id));
        if l.contains_key(id) {
            let jl = choose|j: int| 0 <= j < ls.len() && #[trigger] ls[j].0 == id;
            assert(ls[jl].0 == id);
        }
        if r.contains_key(id) {
            let j = choose|j: int| 0 <= j < rs.len() && #[trigger] rs[j].0 == id;
            assert(rs[j].0 == id && rs[j].1 == r[id]);
            if l.contains_key(id) {
                lemma_override_at(l, rs, folders, j);
            }
        } else {
            assert forall|j: int| 0 <= j < rs.len() implies (#[trigger] rs[j]).0 != id by {
                assert(r.contains_key(rs[j].0));
            }
            lemma_override_untouched(l, rs, folders, id);
        }
    }
    assert(fin =~= want);
}

proof fn lemma_no_fetches(
    rs: Seq<(Seq<char>, RemoteMessageView)>,
    local: Map<Seq<char>, LocalEntryView>,
    folders: Map<Seq<char>, Seq<char>>,
)
    requires
        forall|j: int| 0 <= j < rs.len() && folders.contains_key((#[trigger] rs[j]).1.folder_id) ==> local.contains_key(rs[j].0),
    ensures
        fetches_spec(rs, local, folders).len() == 0,
    decreases rs.len(),
{
    if rs.len() > 0 {
        let p = rs.drop_last();
        assert forall|j: int| 0 <= j < p.len() && folders.contains_key((#[trigger] p[j]).1.folder_id) implies local.contains_key(p[j].0) by {
            assert(p[j] == rs[j]);
        }
        lemma_no_fetches(p, local, folders);
        assert(rs.last() == rs[rs.len() - 1]);
    }
}

proof fn lemma_no_changes(
    rs: Seq<(Seq<char>, RemoteMessageView)>,
    local: Map<Seq<char>, LocalEntryView>,
    folders: Map<Seq<char>, Seq<char>>,
)
    requires
        forall|j: int| 0 <= j < rs.len() && folders.contains_key((#[trigger] rs[j]).1.folder_id) && local.contains_key(rs[j].0)
            ==> local[rs[j].0] == desired_entry(rs[j].1, folders),
    ensures
        changes_spec(rs, local, folders).len() == 0,
    decreases rs.len(),
{
    if rs.len() > 0 {
        let p = rs.drop_last();
        assert forall|j: int| 0 <= j < p.len() && folders.contains_key((#[trigger] p[j]).1.folder_id) && local.contains_key(p[j].0)
            implies local[p[j].0] == desired_entry(p[j].1, folders) by {
            assert(p[j] == rs[j]);
        }
        lemma_no_changes(p, local, folders);
        assert(rs.last() == rs[rs.len() - 1]);
    }
}

proof fn lemma_no_deletes(ls: Seq<(Seq<char>, LocalEntryView)>, remote: Map<Seq<char>, RemoteMessageView>)
    requires
        forall|j: int| 0 <= j < ls.len() ==> remote.contains_key((#[trigger] ls[j]).0),
    ensures
        deletes_spec(ls, remote).len() == 0,
    decreases ls.len(),
{
    if ls.len() > 0 {
        let p = ls.drop_last();
        assert forall|j: int| 0 <= j < p.len() implies remote.contains_key((#[trigger] p[j]).0) by {
            assert(p[j] == ls[j]);
        }
        lemma_no_deletes(p, remote);
        assert(ls.last() == ls[ls.len() - 1]);
    }
}

/// Once the local index mirrors the remote messages, comparing them again
/// calls for nothing: no download, no move, no flag change, no deletion.
pub proof fn lemma_second_sync_is_empty(
    remote: &StrMap<RemoteMessage>,
    mirrored: &StrMap<LocalEntry>,
    before: Map<Seq<char>, LocalEntryView>,
    folders: Map<Seq<char>, Seq<char>>,
)
    requires
        remote.wf(),
        mirrored.wf(),
        mirrored@ == mirror_spec(remote@, before, folders),
    ensures
        fetches_spec(remote.entries(), mirrored@, folders).len() == 0,
        changes_spec(remote.entries(), mirrored@, folders).len() == 0,
        deletes_spec(mirrored.entries(), remote@).len() == 0,
{
    remote.lemma_entries();
    mirrored.lemma_entries();
    let rs = remote.entries();
    let ls = mirrored.entries();
    let m = mirrored@;
    assert forall|j: int| 0 <= j < rs.len() && folders.contains_key((#[trigger] rs[j]).1.folder_id) implies m.contains_key(rs[j].0) by {
        assert(remote@.contains_key(rs[j].0));
    }
    lemma_no_fetches(rs, m, folders);
    assert forall|j: int| 0 <= j < rs.len() && folders.contains_key((#[trigger] rs[j]).1.folder_id) && m.contains_key(rs[j].0)
        implies m[rs[j].0] == desired_entry(rs[j].1, folders) by {
        assert(remote@.contains_key(rs[j].0));
    }
    lemma_no_changes(rs, m, folders);
    assert forall|j: int| 0 <= j < ls.len() implies remote@.contains_key((#[trigger] ls[j]).0) by {
        assert(m.contains_key(ls[j].0));
    }
    lemma_no_deletes(ls, remote@);
}

proof fn lemma_fetches_members(
    rs: Seq<(Seq<char>, RemoteMessageView)>,
    local: Map<Seq<char>, LocalEntryView>,
    folders: Map<Seq<char>, Seq<char>>,
    id: Seq<char>,
)
    ensures
        (exists|i: int| 0 <= i < fetches_spec(rs, local, folders).len() && (#[trigger] fetches_spec(rs, local, folders)[i]).message_id == id)
            <==> (exists|j: int| 0 <= j < rs.len() && (#[trigger] rs[j]).0 == id && folders.contains_key(rs[j].1.folder_id) && !local.contains_key(id)),
        forall|i: int| 0 <= i < fetches_spec(rs, local, folders).len() ==> exists|j: int| 0 <= j < rs.len() && (#[trigger] rs[j]).0 == (#[trigger] fetches_spec(rs, local, folders)[i]).message_id
            && folders.contains_key(rs[j].1.folder_id) && !local.contains_key(rs[j].0)
            && fetches_spec(rs, local, folders)[i].maildir_name == folders[rs[j].1.folder_id]
            && fetches_spec(rs, local, folders)[i].flags == flags_of(rs[j].1),
    decreases rs.len(),
{
    if rs.len() > 0 {
        let p = rs.drop_last();
        lemma_fetches_members(p, local, folders, id);
        let f = fetches_spec(rs, local, folders);
        let fp = fetches_spec(p, local, folders);
        let last = rs.last();
        assert(last == rs[rs.len() - 1]);
        assert forall|i: int| 0 <= i < fp.len() implies f[i] == fp[i] by {}
        if exists|i: int| 0 <= i < fp.len() && (#[trigger] fp[i]).message_id == id {
            let i = choose|i: int| 0 <= i < fp.len() && (#[trigger] fp[i]).message_id == id;
            assert(f[i] == fp[i]);
            let j = choose|j: int| 0 <= j < p.len() && (#[trigger] p[j]).0 == id && folders.contains_key(p[j].1.folder_id) && !local.contains_key(id);
            assert(rs[j] == p[j]);
        }
        if exists|j: int| 0 <= j < rs.len() && (#[trigger] rs[j]).0 == id && folders.contains_key(rs[j].1.folder_id) && !local.contains_key(id) {
            let j = choose|j: int| 0 <= j < rs.len() && (#[trigger] rs[j]).0 == id && folders.contains_key(rs[j].1.folder_id) && !local.contains_key(id);
            if j < p.len() {
                assert(p[j] == rs[j]);
                let i = choose|i: int| 0 <= i < fp.len() && (#[trigger] fp[i]).message_id == id;
                assert(f[i] == fp[i]);
            } else {
                assert(f[f.len() - 1].message_id == id);
            }
        }
        assert forall|i: int| 0 <= i < f.len() implies exists|j: int| 0 <= j < rs.len() && (#[trigger] rs[j]).0 == (#[trigger] f[i]).message_id
            && folders.contains_key(rs[j].1.folder_id) && !local.contains_key(rs[j].0)
            && f[i].maildir_name == folders[rs[j].1.folder_id]
            && f[i].flags == flags_of(rs[j].1) by {
            if i < fp.len() {
                assert(f[i] == fp[i]);
                let j = choose|j: int| 0 <= j < p.len() && (#[trigger] p[j]).0 == (#[trigger] fp[i]).message_id
                    && folders.contains_key(p[j].1.folder_id) && !local.contains_key(p[j].0)
                    && fp[i].maildir_name == folders[p[j].1.folder_id]
                    && fp[i].flags == flags_of(p[j].1);
                assert(rs[j] == p[j]);
            } else {
                assert(rs[rs.len() - 1].0 == f[i].message_id);
            }
        }
    }
}

/// A message is downloaded exactly when the remote side holds it in a known
/// folder and the local Maildir lacks it (a message deleted locally comes
/// back on the next sync; a stored one is never downloaded again), and it is
/// downloaded into that folder with the remote flags.
pub proof fn lemma_fetches_exactly_missing(
    remote: &StrMap<RemoteMessage>,
    local: &StrMap<LocalEntry>,
    folders: Map<Seq<char>, Seq<char>>,
    id: Seq<char>,
)
    requires
        remote.wf(),
    ensures
        (exists|i: int| 0 <= i < fetches_spec(remote.entries(), local@, folders).len()
            && (#[trigger] fetches_spec(remote.entries(), local@, folders)[i]).message_id == id)
            <==> (remote@.contains_key(id) && folders.contains_key(remote@[id].folder_id) && !local@.contains_key(id)),
        forall|i: int| 0 <= i < fetches_spec(remote.entries(), local@, folders).len() ==> ({
            let f = #[trigger] fetches_spec(remote.entries(), local@, folders)[i];
            &&& remote@.contains_key(f.message_id)
            &&& !local@.contains_key(f.message_id)
            &&& folders.contains_key(remote@[f.message_id].folder_id)
            &&& f.maildir_name == folders[remote@[f.message_id].folder_id]
            &&& f.flags == flags_of(remote@[f.message_id])
        }),
{
    remote.lemma_entries();
    let rs = remote.entries();
    lemma_fetches_members(rs, local@, folders, id);
    if remote@.contains_key(id) {
        let j = choose|j: int| 0 <= j < rs.len() && #[trigger] rs[j].0 == id;
        assert(rs[j].1 == remote@[id]);
    }
    if exists|j: int| 0 <= j < rs.len() && (#[trigger] rs[j]).0 == id && folders.contains_key(rs[j].1.folder_id) && !local@.contains_key(id) {
        let j = choose|j: int| 0 <= j < rs.len() && (#[trigger] rs[j]).0 == id && folders.contains_key(rs[j].1.folder_id) && !local@.contains_key(id);
        assert(rs[j].1 == remote@[rs[j].0]);
    }
    let f = fetches_spec(rs, local@, folders);
    assert forall|i: int| 0 <= i < f.len() implies ({
        let x = #[trigger] f[i];
        &&& remote@.contains_key(x.message_id)
        &&& !local@.contains_key(x.message_id)
        &&& folders.contains_key(remote@[x.message_id].folder_id)
        &&& x.maildir_name == folders[remote@[x.message_id].folder_id]
        &&& x.flags == flags_of(remote@[x.message_id])
    }) by {
        let j = choose|j: int| 0 <= j < rs.len() && (#[trigger] rs[j]).0 == (#[trigger] f[i]).message_id
            && folders.contains_key(rs[j].1.folder_id) && !local@.contains_key(rs[j].0)
            && f[i].maildir_name == folders[rs[j].1.folder_id]
            && f[i].flags == flags_of(rs[j].1);
        assert(rs[j].1 == remote@[rs[j].0]);
    }
}

/// A local folder is chosen as stale exactly when no remote folder maps to
/// it.
pub proof fn lemma_stale_folders_exact(local_folders: Seq<Seq<char>>, folders: Seq<FolderView>, name: Seq<char>)
    ensures
        stale_folders_spec(local_folders, folders).contains(name) <==> (local_folders.contains(name)
            && !is_active_spec(folders, name)),
    decreases local_folders.len(),
{
    if local_folders.len() > 0 {
        let p = local_folders.drop_last();
        lemma_stale_folders_exact(p, folders, name);
        let s = stale_folders_spec(local_folders, folders);
        let sp = stale_folders_spec(p, folders);
        let last = local_folders.last();
        if sp.contains(name) {
            let i = choose|i: int| 0 <= i < sp.len() && sp[i] == name;
            assert(s[i] == sp[i]);
        }
        if s.contains(name) {
            let i = choose|i: int| 0 <= i < s.len() && s[i] == name;
            if i < sp.len() {
                assert(s[i] == sp[i]);
            }
        }
        if p.contains(name) {
            let i = choose|i: int| 0 <= i < p.len() && p[i] == name;
            assert(local_folders[i] == p[i]);
        }
        if local_folders.contains(name) {
            let i = choose|i: int| 0 <= i < local_folders.len() && local_folders[i] == name;
            if i < p.len() {
                assert(p[i] == local_folders[i]);
            }
        }
        if !is_active_spec(folders, last) {
            assert(s[s.len() - 1] == last);
        }
    }
}

/// Whether `c` is a sound change to the stored messages `local` given
/// the folder index: a move takes a stored message out of the folder that
/// holds it into a different folder; a flag change names the folder that
/// already holds the message and gives it flags it does not have; neither
/// is a deletion.
pub open spec fn sound_change(c: LocalChangeView, local: Map<Seq<char>, LocalEntryView>) -> bool {
    match c {
        LocalChangeView::Move { message_id, from, to, flags } => {
            &&& local.contains_key(message_id)
            &&& from == local[message_id].maildir_name
            &&& to != from
        },
        LocalChangeView::SetFlags { message_id, maildir_name, flags } => {
            &&& local.contains_key(message_id)
            &&& maildir_name == local[message_id].maildir_name
            &&& flags != local[message_id].flags
        },
        LocalChangeView::Delete { .. } => false,
    }
}

proof fn lemma_changes_seq(
    rs: Seq<(Seq<char>, RemoteMessageView)>,
    local: Map<Seq<char>, LocalEntryView>,
    folders: Map<Seq<char>, Seq<char>>,
)
    ensures
        forall|i: int| 0 <= i < changes_spec(rs, local, folders).len() ==> sound_change(
            #[trigger] changes_spec(rs, local, folders)[i],
            local,
        ),
        forall|j: int|
            0 <= j < rs.len() && folders.contains_key((#[trigger] rs[j]).1.folder_id) && local.contains_key(rs[j].0)
                && local[rs[j].0].maildir_name != folders[rs[j].1.folder_id] ==> changes_spec(rs, local, folders).contains(
                LocalChangeView::Move {
                    message_id: rs[j].0,
                    from: local[rs[j].0].maildir_name,
                    to: folders[rs[j].1.folder_id],
                    flags: flags_of(rs[j].1),
                },
            ),
        forall|j: int|
            0 <= j < rs.len() && folders.contains_key((#[trigger] rs[j]).1.folder_id) && local.contains_key(rs[j].0)
                && local[rs[j].0].maildir_name == folders[rs[j].1.folder_id] && local[rs[j].0].flags != flags_of(rs[j].1)
                ==> changes_spec(rs, local, folders).contains(
                LocalChangeView::SetFlags {
                    message_id: rs[j].0,
                    maildir_name: local[rs[j].0].maildir_name,
                    flags: flags_of(rs[j].1),
                },
            ),
    decreases rs.len(),
{
    if rs.len() > 0 {
        let p = rs.drop_last();
        lemma_changes_seq(p, local, folders);
        let cs = changes_spec(rs, local, folders);
        let cp = changes_spec(p, local, folders);
        assert(rs.last() == rs[rs.len() - 1]);
        assert forall|i: int| 0 <= i < cp.len() implies cs[i] == cp[i] by {}
        assert forall|i: int| 0 <= i < cs.len() implies sound_change(#[trigger] cs[i], local) by {
            if i < cp.len() {
                assert(cs[i] == cp[i]);
            }
        }
        assert forall|j: int|
            0 <= j < rs.len() && folders.contains_key((#[trigger] rs[j]).1.folder_id) && local.contains_key(rs[j].0)
                && local[rs[j].0].maildir_name != folders[rs[j].1.folder_id] implies cs.contains(
                LocalChangeView::Move {
                    message_id: rs[j].0,
                    from: local[rs[j].0].maildir_name,
                    to: folders[rs[j].1.folder_id],
                    flags: flags_of(rs[j].1),
                },
            ) by {
            if j < p.len() {
                assert(p[j] == rs[j]);
                let c = LocalChangeView::Move {
                    message_id: rs[j].0,
                    from: local[rs[j].0].maildir_name,
                    to: folders[rs[j].1.folder_id],
                    flags: flags_of(rs[j].1),
                };
                let k = choose|k: int| 0 <= k < cp.len() && cp[k] == c;
                assert(cs[k] == c);
            } else {
                assert(cs[cs.len() - 1] == LocalChangeView::Move {
                    message_id: rs[j].0,
                    from: local[rs[j].0].maildir_name,
                    to: folders[rs[j].1.folder_id],
                    flags: flags_of(rs[j].1),
                });
            }
        }
        assert forall|j: int|
            0 <= j < rs.len() && folders.contains_key((#[trigger] rs[j]).1.folder_id) && local.contains_key(rs[j].0)
                && local[rs[j].0].maildir_name == folders[rs[j].1.folder_id] && local[rs[j].0].flags != flags_of(rs[j].1)
                implies cs.contains(
                LocalChangeView::SetFlags {
                    message_id: rs[j].0,
                    maildir_name: local[rs[j].0].maildir_name,
                    flags: flags_of(rs[j].1),
                },
            ) by {
            if j < p.len() {
                assert(p[j] == rs[j]);
                let c = LocalChangeView::SetFlags {
                    message_id: rs[j].0,
                    maildir_name: local[rs[j].0].maildir_name,
                    flags: flags_of(rs[j].1),
                };
                let k = choose|k: int| 0 <= k < cp.len() && cp[k] == c;
                assert(cs[k] == c);
            } else {
                assert(cs[cs.len() - 1] == LocalChangeView::SetFlags {
                    message_id: rs[j].0,
                    maildir_name: local[rs[j].0].maildir_name,
                    flags: flags_of(rs[j].1),
                });
            }
        }
    }
}

/// The moves and flag changes of a plan are the right ones: each moves a
/// stored message out of the folder that holds it into a different folder,
/// or gives a stored message, in the folder that holds it, flags it lacks;
/// and every remote message stored in the wrong folder gets a move from that
/// folder to its target with the remote flags, and every one stored in the
/// right folder with other flags gets a flag change there.
pub proof fn lemma_changes_move_from_where_stored(
    remote: &StrMap<RemoteMessage>,
    local: Map<Seq<char>, LocalEntryView>,
    folders: Map<Seq<char>, Seq<char>>,
)
    requires
        remote.wf(),
    ensures
        forall|i: int| 0 <= i < changes_spec(remote.entries(), local, folders).len() ==> sound_change(
            #[trigger] changes_spec(remote.entries(), local, folders)[i],
            local,
        ),
        forall|id: Seq<char>|
            #[trigger] remote@.contains_key(id) && folders.contains_key(remote@[id].folder_id) && local.contains_key(id)
                && local[id].maildir_name != folders[remote@[id].folder_id] ==> changes_spec(
                remote.entries(),
                local,
                folders,
            ).contains(
                LocalChangeView::Move {
                    message_id: id,
                    from: local[id].maildir_name,
                    to: folders[remote@[id].folder_id],
                    flags: flags_of(remote@[id]),
                },
            ),
        forall|id: Seq<char>|
            #[trigger] remote@.contains_key(id) && folders.contains_key(remote@[id].folder_id) && local.contains_key(id)
                && local[id].maildir_name == folders[remote@[id].folder_id] && local[id].flags != flags_of(remote@[id])
                ==> changes_spec(remote.entries(), local, folders).contains(
                LocalChangeView::SetFlags {
                    message_id: id,
                    maildir_name: local[id].maildir_name,
                    flags: flags_of(remote@[id]),
                },
            ),
{
    remote.lemma_entries();
    let rs = remote.entries();
    lemma_changes_seq(rs, local, folders);
    assert forall|id: Seq<char>| #[trigger] remote@.contains_key(id) implies exists|j: int|
        0 <= j < rs.len() && rs[j].0 == id && rs[j].1 == remote@[id] by {
        let j = choose|j: int| 0 <= j < rs.len() && #[trigger] rs[j].0 == id;
        assert(rs[j].1 == remote@[rs[j].0]);
    }
}

/// The deletions of a plan are deletions only.
pub proof fn lemma_deletes_only_delete(ls: Seq<(Seq<char>, LocalEntryView)>, remote: Map<Seq<char>, RemoteMessageView>)
    ensures
        forall|i: int| 0 <= i < deletes_spec(ls, remote).len() ==> (#[trigger] deletes_spec(ls, remote)[i]) is Delete,
    decreases ls.len(),
{
    if ls.len() > 0 {
        lemma_deletes_only_delete(ls.drop_last(), remote);
        let d = deletes_spec(ls, remote);
        let dp = deletes_spec(ls.drop_last(), remote);
        assert forall|i: int| 0 <= i < d.len() implies (#[trigger] d[i]) is Delete by {
            if i < dp.len() {
                assert(d[i] == dp[i]);
            }
        }
    }
}

} // verus!
