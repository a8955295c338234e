//! The sync decisions: merging the remote listings, comparing them with the
//! local Maildir, choosing stale folders, and settling the account id.
use vstd::prelude::*;
use crate::maildir::{Flags, LocalEntry, LocalEntryView};
use crate::state::Meta;
use crate::strmap::{insert_entry, StrMap};
use crate::sync_laws::{lemma_changes_move_from_where_stored, lemma_deletes_only_delete, sound_change};
use crate::text::str_eq;
use crate::zoho::folders::{Folder, FolderView};
use crate::zoho::messages::{RemoteMessage, RemoteMessageView};

verus! {

/// The local flags that mirror a remote message's state.
pub open spec fn flags_of(m: RemoteMessageView) -> Flags {
    Flags { seen: m.read, flagged: m.important }
}

/// The local flags that mirror a remote message: read is seen, important is
/// flagged.
pub fn flags_from_remote(m: &RemoteMessage) -> (f: Flags)
    ensures
        f == flags_of(m@),
{
    Flags { seen: m.read, flagged: m.important }
}

/// `m` with every message of `msgs` put under its id, in order.
pub open spec fn insert_messages(
    m: Map<Seq<char>, RemoteMessageView>,
    msgs: Seq<RemoteMessageView>,
) -> Map<Seq<char>, RemoteMessageView>
    decreases msgs.len(),
{
    if msgs.len() == 0 {
        m
    } else {
        insert_messages(m, msgs.drop_last()).insert(msgs.last().message_id, msgs.last())
    }
}

/// `es` with every message of `msgs` put under its id, in order.
pub open spec fn insert_message_entries(
    es: Seq<(Seq<char>, RemoteMessageView)>,
    msgs: Seq<RemoteMessageView>,
) -> Seq<(Seq<char>, RemoteMessageView)>
    decreases msgs.len(),
{
    if msgs.len() == 0 {
        es
    } else {
        insert_entry(insert_message_entries(es, msgs.drop_last()), msgs.last().message_id, msgs.last())
    }
}

/// The entries of the merged index: each id at the place where it first
/// occurred, with the message of its last occurrence.
pub open spec fn merged_entries_spec<E>(rs: Seq<Result<Vec<RemoteMessage>, E>>) -> Seq<
    (Seq<char>, RemoteMessageView),
>
    decreases rs.len(),
{
    if rs.len() == 0 {
        Seq::empty()
    } else {
        match rs.last() {
            Ok(v) => insert_message_entries(merged_entries_spec(rs.drop_last()), v@.map_values(|m: RemoteMessage| m@)),
            Err(_) => merged_entries_spec(rs.drop_last()),
        }
    }
}

/// The messages of the listings that succeeded, by id; where an id occurs
/// twice, the later listing wins.
pub open spec fn merged_listings_spec<E>(rs: Seq<Result<Vec<RemoteMessage>, E>>) -> Map<
    Seq<char>,
    RemoteMessageView,
>
    decreases rs.len(),
{
    if rs.len() == 0 {
        Map::empty()
    } else {
        match rs.last() {
            Ok(v) => insert_messages(merged_listings_spec(rs.drop_last()), v@.map_values(|m: RemoteMessage| m@)),
            Err(_) => merged_listings_spec(rs.drop_last()),
        }
    }
}

/// The errors of the listings that failed, in order.
pub open spec fn listing_errors_spec<E>(rs: Seq<Result<Vec<RemoteMessage>, E>>) -> Seq<E>
    decreases rs.len(),
{
    if rs.len() == 0 {
        Seq::empty()
    } else {
        match rs.last() {
            Ok(_) => listing_errors_spec(rs.drop_last()),
            Err(e) => listing_errors_spec(rs.drop_last()).push(e),
        }
    }
}

/// Merges the per-folder listings into one index of remote messages by id
/// (a later listing wins where an id repeats) and collects the errors of
/// the listings that failed.
pub fn merge_listings<E>(results: Vec<Result<Vec<RemoteMessage>, E>>) -> (r: (StrMap<RemoteMessage>, Vec<E>))
    ensures
        r.0@ == merged_listings_spec(results@),
        r.0.entries() == merged_entries_spec(results@),
        r.1@ == listing_errors_spec(results@),
{
    let ghost rs = results@;
    let mut out: StrMap<RemoteMessage> = StrMap::new();
    let mut errors: Vec<E> = Vec::new();
    for r in it: results
        invariant
            rs == it.seq(),
            out@ == merged_listings_spec(rs.take(it.index())),
            out.entries() == merged_entries_spec(rs.take(it.index())),
            errors@ == listing_errors_spec(rs.take(it.index())),
    {
        let ghost i = it.index();
        proof {
            assert(rs.take(i + 1).drop_last() =~= rs.take(i));
            assert(rs.take(i + 1).last() == rs[i]);
        }
        match r {
            Ok(msgs) => {
                let ghost ms = msgs@.map_values(|m: RemoteMessage| m@);
                let ghost base = out@;
                let ghost base_entries = out.entries();
                for m in jt: msgs
                    invariant
                        ms == jt.seq().map_values(|m: RemoteMessage| m@),
                        out@ == insert_messages(base, ms.take(jt.index())),
                        out.entries() == insert_message_entries(base_entries, ms.take(jt.index())),
                {
                    let ghost j = jt.index();
                    proof {
                        assert(ms.take(j + 1).drop_last() =~= ms.take(j));
                        assert(ms.take(j + 1).last() == m@);
                    }
                    let key = m.message_id.clone();
                    out.insert(key, m);
                }
                proof {
                    assert(ms.take(ms.len() as int) =~= ms);
                }
            },
            Err(e) => {
                errors.push(e);
            },
        }
    }
    proof {
        assert(rs.take(rs.len() as int) =~= rs);
    }
    (out, errors)
}

/// The remote index, only where every folder listing succeeded: a sync
/// never compares the local Maildir against a partial remote listing.
/// Otherwise the errors of the listings that failed, in order.
pub fn complete_remote_index<E>(results: Vec<Result<Vec<RemoteMessage>, E>>) -> (r: Result<
    StrMap<RemoteMessage>,
    Vec<E>,
>)
    ensures
        listing_errors_spec(results@).len() == 0 ==> (r is Ok && r->Ok_0@
            == merged_listings_spec(results@) && r->Ok_0.entries() == merged_entries_spec(
            results@,
        )),
        listing_errors_spec(results@).len() > 0 ==> (r is Err && r->Err_0@ == listing_errors_spec(
            results@,
        )),
{
    let (remote, errors) = merge_listings(results);
    if errors.len() == 0 {
        Ok(remote)
    } else {
        Err(errors)
    }
}

/// The index from folder id to Maildir folder name; where an id repeats,
/// the later folder wins.
pub open spec fn folder_index_spec(folders: Seq<FolderView>) -> Map<Seq<char>, Seq<char>>
    decreases folders.len(),
{
    if folders.len() == 0 {
        Map::empty()
    } else {
        folder_index_spec(folders.drop_last()).insert(folders.last().folder_id, folders.last().maildir_name)
    }
}

/// The entries of the folder index: each folder id at the place where it
/// first occurred, with the Maildir name of its last occurrence.
pub open spec fn folder_index_entries_spec(folders: Seq<FolderView>) -> Seq<(Seq<char>, Seq<char>)>
    decreases folders.len(),
{
    if folders.len() == 0 {
        Seq::empty()
    } else {
        insert_entry(folder_index_entries_spec(folders.drop_last()), folders.last().folder_id, folders.last().maildir_name)
    }
}

/// Indexes the folders' Maildir names by folder id.
pub fn folder_index(folders: &Vec<Folder>) -> (m: StrMap<String>)
    ensures
        m@ == folder_index_spec(folders@.map_values(|f: Folder| f@)),
        m.entries() == folder_index_entries_spec(folders@.map_values(|f: Folder| f@)),
{
    let ghost fs = folders@.map_values(|f: Folder| f@);
    let mut m: StrMap<String> = StrMap::new();
    let mut i: usize = 0;
    while i < folders.len()
        invariant
            i <= folders.len(),
            fs == folders@.map_values(|f: Folder| f@),
            m@ == folder_index_spec(fs.take(i as int)),
            m.entries() == folder_index_entries_spec(fs.take(i as int)),
        decreases folders.len() - i,
    {
        let f = &folders[i];
        m.insert(f.folder_id.clone(), f.maildir_name.clone());
        proof {
            assert(fs.take(i + 1).drop_last() =~= fs.take(i as int));
            assert(fs.take(i + 1).last() == f@);
        }
        i = i + 1;
    }
    proof {
        assert(fs.take(i as int) =~= fs);
    }
    m
}

/// A message to download: its id, the folder to store it in, its flags.
#[derive(Clone, Debug)]
pub struct FetchItem {
    pub message_id: String,
    pub maildir_name: String,
    pub flags: Flags,
}

/// The mathematical value of a [`FetchItem`].
pub struct FetchItemView {
    pub message_id: Seq<char>,
    pub maildir_name: Seq<char>,
    pub flags: Flags,
}

impl View for FetchItem {
    type V = FetchItemView;

    open spec fn view(&self) -> FetchItemView {
        FetchItemView { message_id: self.message_id@, maildir_name: self.maildir_name@, flags: self.flags }
    }
}

/// A change to a message that is already stored locally.
#[derive(Clone, Debug)]
pub enum LocalChange {
    /// Move the message to another folder and give it these flags.
    Move { message_id: String, from: String, to: String, flags: Flags },
    /// Give the message, in this folder, these flags.
    SetFlags { message_id: String, maildir_name: String, flags: Flags },
    /// Delete the message from this folder.
    Delete { message_id: String, maildir_name: String },
}

/// The mathematical value of a [`LocalChange`].
pub enum LocalChangeView {
    Move { message_id: Seq<char>, from: Seq<char>, to: Seq<char>, flags: Flags },
    SetFlags { message_id: Seq<char>, maildir_name: Seq<char>, flags: Flags },
    Delete { message_id: Seq<char>, maildir_name: Seq<char> },
}

impl View for LocalChange {
    type V = LocalChangeView;

    open spec fn view(&self) -> LocalChangeView {
        match self {
            LocalChange::Move { message_id, from, to, flags } => LocalChangeView::Move {
                message_id: message_id@,
                from: from@,
                to: to@,
                flags: *flags,
            },
            LocalChange::SetFlags { message_id, maildir_name, flags } => LocalChangeView::SetFlags {
                message_id: message_id@,
                maildir_name: maildir_name@,
                flags: *flags,
            },
            LocalChange::Delete { message_id, maildir_name } => LocalChangeView::Delete {
                message_id: message_id@,
                maildir_name: maildir_name@,
            },
        }
    }
}

/// The downloads that the remote messages `rs` call for: each message in a
/// known folder that the local Maildir lacks, in the order of `rs`.
pub open spec fn fetches_spec(
    rs: Seq<(Seq<char>, RemoteMessageView)>,
    local: Map<Seq<char>, LocalEntryView>,
    folders: Map<Seq<char>, Seq<char>>,
) -> Seq<FetchItemView>
    decreases rs.len(),
{
    if rs.len() == 0 {
        Seq::empty()
    } else {
        let prev = fetches_spec(rs.drop_last(), local, folders);
        let id = rs.last().0;
        let r = rs.last().1;
        if folders.contains_key(r.folder_id) && !local.contains_key(id) {
            prev.push(FetchItemView { message_id: id, maildir_name: folders[r.folder_id], flags: flags_of(r) })
        } else {
            prev
        }
    }
}

/// The changes that the remote messages `rs` call for to messages stored
/// locally: a move where the folder differs, else new flags where the
/// flags differ, in the order of `rs`.
pub open spec fn changes_spec(
    rs: Seq<(Seq<char>, RemoteMessageView)>,
    local: Map<Seq<char>, LocalEntryView>,
    folders: Map<Seq<char>, Seq<char>>,
) -> Seq<LocalChangeView>
    decreases rs.len(),
{
    if rs.len() == 0 {
        Seq::empty()
    } else {
        let prev = changes_spec(rs.drop_last(), local, folders);
        let id = rs.last().0;
        let r = rs.last().1;
        if folders.contains_key(r.folder_id) && local.contains_key(id) {
            let target = folders[r.folder_id];
            let le = local[id];
            if le.maildir_name != target {
                prev.push(LocalChangeView::Move { message_id: id, from: le.maildir_name, to: target, flags: flags_of(r) })
            } else if le.flags != flags_of(r) {
                prev.push(LocalChangeView::SetFlags { message_id: id, maildir_name: target, flags: flags_of(r) })
            } else {
                prev
            }
        } else {
            prev
        }
    }
}

/// The deletions of local messages `ls` that the remote side no longer
/// holds, in the order of `ls`.
pub open spec fn deletes_spec(
    ls: Seq<(Seq<char>, LocalEntryView)>,
    remote: Map<Seq<char>, RemoteMessageView>,
) -> Seq<LocalChangeView>
    decreases ls.len(),
{
    if ls.len() == 0 {
        Seq::empty()
    } else {
        let prev = deletes_spec(ls.drop_last(), remote);
        let id = ls.last().0;
        if !remote.contains_key(id) {
            prev.push(LocalChangeView::Delete { message_id: id, maildir_name: ls.last().1.maildir_name })
        } else {
            prev
        }
    }
}

/// Compares the remote messages with the local Maildir: the messages to
/// download, and the moves, flag changes and deletions of local messages,
/// moves and flag changes first, in the order of the remote index, then
/// deletions in the order of the local index. A remote message in a folder
/// that the index does not know is left alone.
pub fn diff_local_remote(
    remote: &StrMap<RemoteMessage>,
    local: &StrMap<LocalEntry>,
    folder_id_to_maildir: &StrMap<String>,
) -> (r: (Vec<FetchItem>, Vec<LocalChange>))
    ensures
        r.0@.map_values(|f: FetchItem| f@) == fetches_spec(remote.entries(), local@, folder_id_to_maildir@),
        r.1@.map_values(|c: LocalChange| c@) == changes_spec(remote.entries(), local@, folder_id_to_maildir@)
            + deletes_spec(local.entries(), remote@),
        forall|i: int|
            0 <= i < r.1@.len() && !((#[trigger] r.1@[i])@ is Delete) ==> sound_change(r.1@[i]@, local@),
        forall|id: Seq<char>|
            #[trigger] remote@.contains_key(id) && folder_id_to_maildir@.contains_key(remote@[id].folder_id)
                && local@.contains_key(id) && local@[id].maildir_name != folder_id_to_maildir@[remote@[id].folder_id]
                ==> r.1@.map_values(|c: LocalChange| c@).contains(
                LocalChangeView::Move {
                    message_id: id,
                    from: local@[id].maildir_name,
                    to: folder_id_to_maildir@[remote@[id].folder_id],
                    flags: flags_of(remote@[id]),
                },
            ),
{
    let ghost rs = remote.entries();
    let ghost ls = local.entries();
    let ghost fm = folder_id_to_maildir@;
    let mut to_fetch: Vec<FetchItem> = Vec::new();
    let mut changes: Vec<LocalChange> = Vec::new();
    let n = remote.len();
    let mut i: usize = 0;
    while i < n
        invariant
            n == rs.len(),
            rs == remote.entries(),
            fm == folder_id_to_maildir@,
            i <= n,
            to_fetch@.map_values(|f: FetchItem| f@) == fetches_spec(rs.take(i as int), local@, fm),
            changes@.map_values(|c: LocalChange| c@) == changes_spec(rs.take(i as int), local@, fm),
        decreases n - i,
    {
        let (mid, rmsg) = remote.entry_at(i);
        let ghost before_f = to_fetch@.map_values(|f: FetchItem| f@);
        let ghost before_c = changes@.map_values(|c: LocalChange| c@);
        proof {
            assert(rs.take(i + 1).drop_last() =~= rs.take(i as int));
            assert(rs.take(i + 1).last() == rs[i as int]);
        }
        match folder_id_to_maildir.get(rmsg.folder_id.as_str()) {
            None => {},
            Some(target) => {
                let flags = flags_from_remote(rmsg);
                match local.get(mid.as_str()) {
                    None => {
                        to_fetch.push(FetchItem { message_id: mid.clone(), maildir_name: target.clone(), flags });
                        assert(to_fetch@.map_values(|f: FetchItem| f@) =~= before_f.push(to_fetch@.last()@));
                    },
                    Some(le) => {
                        if !str_eq(le.maildir_name.as_str(), target.as_str()) {
                            changes.push(
                                LocalChange::Move {
                                    message_id: mid.clone(),
                                    from: le.maildir_name.clone(),
                                    to: target.clone(),
                                    flags,
                                },
                            );
                            assert(changes@.map_values(|c: LocalChange| c@) =~= before_c.push(changes@.last()@));
                        } else if le.flags != flags {
                            changes.push(
                                LocalChange::SetFlags {
                                    message_id: mid.clone(),
                                    maildir_name: target.clone(),
                                    flags,
                                },
                            );
                            assert(changes@.map_values(|c: LocalChange| c@) =~= before_c.push(changes@.last()@));
                        }
                    },
                }
            },
        }
        i = i + 1;
    }
    proof {
        assert(rs.take(n as int) =~= rs);
    }
    let ghost mid_changes = changes@.map_values(|c: LocalChange| c@);
    let m = local.len();
    let mut j: usize = 0;
    while j < m
        invariant
            m == ls.len(),
            ls == local.entries(),
            j <= m,
            changes@.map_values(|c: LocalChange| c@) == mid_changes + deletes_spec(ls.take(j as int), remote@),
        decreases m - j,
    {
        let (mid, le) = local.entry_at(j);
        let ghost before_c = changes@.map_values(|c: LocalChange| c@);
        proof {
            assert(ls.take(j + 1).drop_last() =~= ls.take(j as int));
            assert(ls.take(j + 1).last() == ls[j as int]);
        }
        if !remote.contains_key(mid.as_str()) {
            changes.push(LocalChange::Delete { message_id: mid.clone(), maildir_name: le.maildir_name.clone() });
            assert(changes@.map_values(|c: LocalChange| c@) =~= before_c.push(changes@.last()@));
        }
        j = j + 1;
    }
    proof {
        assert(ls.take(m as int) =~= ls);
        use_type_invariant(remote);
        lemma_changes_move_from_where_stored(remote, local@, fm);
        lemma_deletes_only_delete(ls, remote@);
        let cv = changes@.map_values(|c: LocalChange| c@);
        let cs = changes_spec(rs, local@, fm);
        let ds = deletes_spec(ls, remote@);
        assert forall|i: int|
            0 <= i < changes@.len() && !((#[trigger] changes@[i])@ is Delete) implies sound_change(changes@[i]@, local@) by {
            assert(cv[i] == changes@[i]@);
            if i >= cs.len() {
                assert(cv[i] == ds[i - cs.len()]);
            } else {
                assert(cv[i] == cs[i]);
            }
        }
        assert forall|id: Seq<char>|
            #[trigger] remote@.contains_key(id) && fm.contains_key(remote@[id].folder_id)
                && local@.contains_key(id) && local@[id].maildir_name != fm[remote@[id].folder_id]
                implies cv.contains(
                LocalChangeView::Move {
                    message_id: id,
                    from: local@[id].maildir_name,
                    to: fm[remote@[id].folder_id],
                    flags: flags_of(remote@[id]),
                },
            ) by {
            let c = LocalChangeView::Move {
                message_id: id,
                from: local@[id].maildir_name,
                to: fm[remote@[id].folder_id],
                flags: flags_of(remote@[id]),
            };
            assert(cs.contains(c));
            let k = choose|k: int| 0 <= k < cs.len() && cs[k] == c;
            assert(cv[k] == c);
        }
    }
    (to_fetch, changes)
}

/// Whether some folder of `folders` is mirrored into the Maildir folder
/// `name`.
pub open spec fn is_active_spec(folders: Seq<FolderView>, name: Seq<char>) -> bool {
    exists|k: int| 0 <= k < folders.len() && (#[trigger] folders[k]).maildir_name == name
}

/// The local folders that no remote folder maps to, in order.
pub open spec fn stale_folders_spec(local_folders: Seq<Seq<char>>, folders: Seq<FolderView>) -> Seq<
    Seq<char>,
>
    decreases local_folders.len(),
{
    if local_folders.len() == 0 {
        Seq::empty()
    } else {
        let prev = stale_folders_spec(local_folders.drop_last(), folders);
        if is_active_spec(folders, local_folders.last()) {
            prev
        } else {
            prev.push(local_folders.last())
        }
    }
}

/// Whether `name` is the Maildir folder of one of `folders`.
fn is_active(folders: &Vec<Folder>, name: &str) -> (r: bool)
    ensures
        r == is_active_spec(folders@.map_values(|f: Folder| f@), name@),
{
    let ghost fs = folders@.map_values(|f: Folder| f@);
    let mut k: usize = 0;
    while k < folders.len()
        invariant
            k <= folders.len(),
            fs == folders@.map_values(|f: Folder| f@),
            forall|x: int| 0 <= x < k ==> (#[trigger] fs[x]).maildir_name != name@,
        decreases folders.len() - k,
    {
        if str_eq(folders[k].maildir_name.as_str(), name) {
            assert(fs[k as int].maildir_name == name@);
            return true;
        }
        k = k + 1;
    }
    false
}

/// The local Maildir folders that no remote folder maps to any more: the
/// candidates for removal once empty.
pub fn stale_folders(local_folders: &Vec<String>, folders: &Vec<Folder>) -> (r: Vec<String>)
    ensures
        r.deep_view() == stale_folders_spec(local_folders.deep_view(), folders@.map_values(|f: Folder| f@)),
{
    let ghost fs = folders@.map_values(|f: Folder| f@);
    let ghost ls = local_folders.deep_view();
    let mut out: Vec<String> = Vec::new();
    let mut i: usize = 0;
    while i < local_folders.len()
        invariant
            i <= local_folders.len(),
            fs == folders@.map_values(|f: Folder| f@),
            ls == local_folders.deep_view(),
            out.deep_view() == stale_folders_spec(ls.take(i as int), fs),
        decreases local_folders.len() - i,
    {
        let name = &local_folders[i];
        let ghost before = out.deep_view();
        proof {
            assert(ls.take(i + 1).drop_last() =~= ls.take(i as int));
            assert(ls.take(i + 1).last() == name@);
        }
        if !is_active(folders, name.as_str()) {
            out.push(name.clone());
            assert(out.deep_view() =~= before.push(name@));
        }
        i = i + 1;
    }
    proof {
        assert(ls.take(i as int) =~= ls);
    }
    out
}

/// Why the account id could not be settled.
#[derive(Clone, Copy, Debug, PartialEq, Eq, Structural)]
pub enum AccountError {
    /// The saved account id is not among the accounts that the tokens can
    /// reach.
    SavedAccountMissing,
    /// The tokens reach no account at all.
    NoAccounts,
}

/// The first account of a listing, where there is one.
pub fn discover_account_id(ids: &Vec<String>) -> (r: Option<String>)
    ensures
        ids@.len() == 0 ==> r is None,
        ids@.len() > 0 ==> r == Some(ids@[0]),
{
    if ids.len() == 0 {
        None
    } else {
        Some(ids[0].clone())
    }
}

/// Settles the account to sync, given the ids of the accounts that the
/// tokens reach: a saved id is kept when it is still among them; without a
/// saved id the first account is chosen and remembered in `meta`.
pub fn resolve_account_id(meta: &mut Meta, ids: &Vec<String>) -> (r: Result<String, AccountError>)
    ensures
        match old(meta).account_id {
            Some(saved) => {
                &&& final(meta).folders == old(meta).folders
                &&& final(meta).account_id == Some(saved)
                &&& if ids.deep_view().contains(saved@) {
                    r == Ok::<String, AccountError>(saved)
                } else {
                    r == Err::<String, AccountError>(AccountError::SavedAccountMissing)
                }
            },
            None => if ids@.len() > 0 {
                &&& final(meta).folders == old(meta).folders
                &&& r == Ok::<String, AccountError>(ids@[0])
                &&& final(meta).account_id == Some(ids@[0])
            } else {
                &&& r == Err::<String, AccountError>(AccountError::NoAccounts)
                &&& final(meta).account_id is None
                &&& final(meta).folders == old(meta).folders
            },
        },
{
    match &meta.account_id {
        Some(saved) => {
            let saved = saved.clone();
            let mut k: usize = 0;
            while k < ids.len()
                invariant
                    k <= ids.len(),
                    old(meta).account_id == Some(saved),
                    *meta == *old(meta),
                    forall|x: int| 0 <= x < k ==> (#[trigger] ids.deep_view()[x]) != saved@,
                decreases ids.len() - k,
            {
                if str_eq(ids[k].as_str(), saved.as_str()) {
                    assert(ids.deep_view()[k as int] == saved@);
                    return Ok(saved);
                }
                k = k + 1;
            }
            Err(AccountError::SavedAccountMissing)
        },
        None => match discover_account_id(ids) {
            Some(id) => {
                meta.account_id = Some(id.clone());
                Ok(id)
            },
            None => Err(AccountError::NoAccounts),
        },
    }
}

/// The map from folder id to Maildir folder name of a listing of folders.
pub open spec fn folder_id_map(folders: Seq<Folder>) -> Map<Seq<char>, Seq<char>> {
    folder_index_spec(folders.map_values(|f: Folder| f@))
}

/// The folder table of a listing: each folder id once, at the place where
/// it first occurred, with the Maildir name of its last occurrence.
pub fn folder_table(folders: &Vec<Folder>) -> (t: Vec<Folder>)
    ensures
        t@.map_values(|f: Folder| (f@.folder_id, f@.maildir_name)) == folder_index_entries_spec(
            folders@.map_values(|f: Folder| f@),
        ),
        forall|i: int, j: int|
            0 <= i < t@.len() && 0 <= j < t@.len() && i != j ==> (#[trigger] t@[i]).folder_id@
                != (#[trigger] t@[j]).folder_id@,
        forall|i: int|
            0 <= i < t@.len() ==> folder_id_map(folders@).contains_key(
                (#[trigger] t@[i]).folder_id@,
            ) && folder_id_map(folders@)[t@[i].folder_id@]
                == t@[i].maildir_name@,
        forall|k: Seq<char>|
            #[trigger] folder_id_map(folders@).contains_key(k) ==> exists|i: int|
                0 <= i < t@.len() && (#[trigger] t@[i]).folder_id@ == k,
{
    let index = folder_index(folders);
    proof {
        use_type_invariant(&index);
        index.lemma_entries();
    }
    let ghost es = index.entries();
    let mut t: Vec<Folder> = Vec::new();
    let n = index.len();
    let mut i: usize = 0;
    while i < n
        invariant
            es == index.entries(),
            n == es.len(),
            i <= n,
            t@.map_values(|f: Folder| (f@.folder_id, f@.maildir_name)) == es.take(i as int),
        decreases n - i,
    {
        let (id, name) = index.entry_at(i);
        let ghost before = t@.map_values(|f: Folder| (f@.folder_id, f@.maildir_name));
        t.push(Folder { folder_id: id.clone(), maildir_name: name.clone() });
        assert(t@.map_values(|f: Folder| (f@.folder_id, f@.maildir_name)) =~= before.push(es[i as int]));
        assert(es.take(i + 1) =~= es.take(i as int).push(es[i as int]));
        i = i + 1;
    }
    assert(es.take(n as int) =~= es);
    let ghost tv = t@.map_values(|f: Folder| (f@.folder_id, f@.maildir_name));
    assert forall|i: int, j: int|
        0 <= i < t@.len() && 0 <= j < t@.len() && i != j implies (#[trigger] t@[i]).folder_id@
            != (#[trigger] t@[j]).folder_id@ by {
        assert(tv[i] == es[i] && tv[j] == es[j]);
        assert(index.entries()[i].0 != index.entries()[j].0);
    }
    assert forall|i: int| 0 <= i < t@.len() implies index@.contains_key((#[trigger] t@[i]).folder_id@)
        && index@[t@[i].folder_id@] == t@[i].maildir_name@ by {
        assert(tv[i] == es[i]);
        assert(index@.contains_key(index.entries()[i].0));
    }
    assert forall|k: Seq<char>| #[trigger] index@.contains_key(k) implies exists|i: int|
        0 <= i < t@.len() && (#[trigger] t@[i]).folder_id@ == k by {
        let i = choose|i: int| 0 <= i < es.len() && #[trigger] es[i].0 == k;
        assert(tv[i] == es[i]);
    }
    t
}

/// Records in `meta` the table from folder id to Maildir folder name of
/// this run's folders; the account id is kept.
pub fn record_folders(meta: &mut Meta, folders: &Vec<Folder>)
    ensures
        final(meta).account_id == old(meta).account_id,
        final(meta).folders@.map_values(|f: Folder| (f@.folder_id, f@.maildir_name))
            == folder_index_entries_spec(folders@.map_values(|f: Folder| f@)),
        forall|i: int|
            0 <= i < final(meta).folders@.len() ==> folder_id_map(folders@).contains_key((#[trigger] final(meta).folders@[i]).folder_id@) && folder_id_map(folders@)[final(meta).folders@[i].folder_id@] == final(meta).folders@[i].maildir_name@,
        forall|k: Seq<char>|
            #[trigger] folder_id_map(folders@).contains_key(k) ==> exists|i: int|
                0 <= i < final(meta).folders@.len() && (#[trigger] final(meta).folders@[i]).folder_id@ == k,
{
    meta.folders = folder_table(folders);
}

} // verus!
