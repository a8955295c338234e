//! Zoho folders and the Maildir folder names derived from them.
use vstd::prelude::*;
use crate::maildir::{is_maildir_folder_name_spec, state_dir_name_spec};
use crate::strmap::StrMap;
use crate::text::{chars_of, push_char, push_str, str_eq, string_from};

verus! {

/// A remote folder and the local Maildir folder that mirrors it.
#[derive(Clone, Debug)]
pub struct Folder {
    pub folder_id: String,
    pub maildir_name: String,
}

/// The mathematical value of a [`Folder`].
pub struct FolderView {
    pub folder_id: Seq<char>,
    pub maildir_name: Seq<char>,
}

impl View for Folder {
    type V = FolderView;

    open spec fn view(&self) -> FolderView {
        FolderView { folder_id: self.folder_id@, maildir_name: self.maildir_name@ }
    }
}

/// What the naming of folders needs to know of a folder: its name and its
/// parent's id.
#[derive(Clone, Debug)]
pub struct FolderRecord {
    pub name: String,
    pub parent: Option<String>,
}

impl View for FolderRecord {
    type V = (Seq<char>, Option<Seq<char>>);

    open spec fn view(&self) -> (Seq<char>, Option<Seq<char>>) {
        (self.name@, self.parent.deep_view())
    }
}

/// The parent id that Zoho reports, where it names a real parent: an empty
/// id and the id `0` mean a top-level folder.
pub open spec fn normalize_parent_spec(parent: Option<Seq<char>>) -> Option<Seq<char>> {
    match parent {
        Some(p) => if p.len() == 0 || p == seq!['0'] {
            None
        } else {
            Some(p)
        },
        None => None,
    }
}

/// Keeps a reported parent id only where it names a real parent.
pub fn normalize_parent(parent: Option<String>) -> (r: Option<String>)
    ensures
        r.deep_view() == normalize_parent_spec(parent.deep_view()),
{
    match parent {
        Some(p) => {
            let zero = "0";
            proof {
                reveal_strlit("0");
                assert(zero@ =~= seq!['0']);
            }
            if p.as_str().is_empty() || str_eq(p.as_str(), zero) {
                None
            } else {
                Some(p)
            }
        },
        None => None,
    }
}

/// Whether `c` is a control character (Unicode general category Cc: the C0
/// and C1 codes and DEL).
pub open spec fn is_control_spec(c: char) -> bool {
    (c as u32) <= 0x1f || (0x7f <= (c as u32) && (c as u32) <= 0x9f)
}

/// Decides whether `c` is a control character, as `char::is_control` does.
pub fn is_control(c: char) -> (r: bool)
    ensures
        r == is_control_spec(c),
{
    let u = c as u32;
    u <= 0x1f || (0x7f <= u && u <= 0x9f)
}

/// A character that may stand in a Maildir folder name segment: path
/// separators, the Maildir++ hierarchy dot, the info colon and control
/// characters become `_`.
pub open spec fn sanitize_char_spec(c: char) -> char {
    if c == '/' || c == '.' || c == '\\' || c == ':' || is_control_spec(c) {
        '_'
    } else {
        c
    }
}

/// A folder name made safe to be one segment of a Maildir folder name; an
/// empty name becomes `_`.
pub open spec fn sanitize_spec(name: Seq<char>) -> Seq<char> {
    if name.len() == 0 {
        seq!['_']
    } else {
        name.map_values(|c: char| sanitize_char_spec(c))
    }
}

/// Makes a folder name safe to be one segment of a Maildir folder name.
pub fn sanitize(name: &str) -> (out: String)
    ensures
        out@ == sanitize_spec(name@),
{
    let cs = chars_of(name);
    let mut out = String::new();
    let mut i: usize = 0;
    while i < cs.len()
        invariant
            i <= cs.len(),
            cs@ == name@,
            out@ == name@.take(i as int).map_values(|c: char| sanitize_char_spec(c)),
        decreases cs.len() - i,
    {
        let c = cs[i];
        let d = if c == '/' || c == '.' || c == '\\' || c == ':' || is_control(c) {
            '_'
        } else {
            c
        };
        push_char(&mut out, d);
        assert(name@.take(i as int + 1).map_values(|c: char| sanitize_char_spec(c)) =~= name@.take(
            i as int,
        ).map_values(|c: char| sanitize_char_spec(c)).push(sanitize_char_spec(name@[i as int])));
        i = i + 1;
    }
    if cs.len() == 0 {
        push_char(&mut out, '_');
        assert(out@ =~= seq!['_']);
    } else {
        assert(name@.take(i as int) =~= name@);
    }
    out
}

/// The folders of a listing by id; where an id occurs twice, the later
/// entry wins.
pub open spec fn folders_by_id_spec(raw: Seq<(Seq<char>, Seq<char>, Option<Seq<char>>)>) -> Map<
    Seq<char>,
    (Seq<char>, Option<Seq<char>>),
>
    decreases raw.len(),
{
    if raw.len() == 0 {
        Map::empty()
    } else {
        let last = raw.last();
        folders_by_id_spec(raw.drop_last()).insert(last.0, (last.1, last.2))
    }
}

/// The sanitized names of the ancestors of a folder whose parent id is
/// `parent`, nearest first, following at most `fuel` parent links and
/// stopping at an id that the listing does not hold.
pub open spec fn ancestors_spec(
    by_id: Map<Seq<char>, (Seq<char>, Option<Seq<char>>)>,
    parent: Option<Seq<char>>,
    fuel: nat,
) -> Seq<Seq<char>>
    decreases fuel,
{
    if fuel == 0 {
        Seq::empty()
    } else {
        match parent {
            None => Seq::empty(),
            Some(pid) => if by_id.contains_key(pid) {
                seq![sanitize_spec(by_id[pid].0)] + ancestors_spec(by_id, by_id[pid].1, (fuel - 1) as nat)
            } else {
                Seq::empty()
            },
        }
    }
}

/// The segments of `chain` in reverse order, joined by `.`.
pub open spec fn join_rev_spec(chain: Seq<Seq<char>>) -> Seq<char>
    decreases chain.len(),
{
    if chain.len() == 0 {
        Seq::empty()
    } else if chain.len() == 1 {
        chain[0]
    } else {
        join_rev_spec(chain.drop_first()) + seq!['.'] + chain[0]
    }
}

/// The number of parent links followed when naming a folder.
pub open spec fn max_parent_links() -> nat {
    33
}

/// The Maildir++ name of a folder: a leading `.`, then the sanitized names
/// from the outermost known ancestor down to the folder itself, joined by
/// `.`.
pub open spec fn maildir_name_spec(
    by_id: Map<Seq<char>, (Seq<char>, Option<Seq<char>>)>,
    name: Seq<char>,
    parent: Option<Seq<char>>,
) -> Seq<char> {
    seq!['.'] + join_rev_spec(seq![sanitize_spec(name)] + ancestors_spec(by_id, parent, max_parent_links()))
}

proof fn lemma_ancestors_step(
    by_id: Map<Seq<char>, (Seq<char>, Option<Seq<char>>)>,
    pid: Seq<char>,
    fuel: nat,
)
    requires
        fuel > 0,
        by_id.contains_key(pid),
    ensures
        ancestors_spec(by_id, Some(pid), fuel) == seq![sanitize_spec(by_id[pid].0)] + ancestors_spec(
            by_id,
            by_id[pid].1,
            (fuel - 1) as nat,
        ),
{
}

proof fn lemma_join_rev_subrange(chain: Seq<Seq<char>>, k: int)
    requires
        0 <= k,
        k + 2 <= chain.len(),
    ensures
        join_rev_spec(chain.subrange(k, chain.len() as int)) == join_rev_spec(
            chain.subrange(k + 1, chain.len() as int),
        ) + seq!['.'] + chain[k],
{
    let s = chain.subrange(k, chain.len() as int);
    assert(s.drop_first() =~= chain.subrange(k + 1, chain.len() as int));
}

proof fn lemma_ancestors_fuel(
    by_id: Map<Seq<char>, (Seq<char>, Option<Seq<char>>)>,
    parent: Option<Seq<char>>,
    fuel: nat,
)
    requires
        ancestors_spec(by_id, parent, fuel + 1).len() <= fuel,
    ensures
        ancestors_spec(by_id, parent, fuel + 1) == ancestors_spec(by_id, parent, fuel),
    decreases fuel,
{
    match parent {
        None => {},
        Some(pid) => {
            if by_id.contains_key(pid) && fuel > 0 {
                let pp = by_id[pid].1;
                assert(ancestors_spec(by_id, parent, fuel + 1) == seq![sanitize_spec(by_id[pid].0)]
                    + ancestors_spec(by_id, pp, fuel));
                lemma_ancestors_fuel(by_id, pp, (fuel - 1) as nat);
                assert(ancestors_spec(by_id, pp, fuel) == ancestors_spec(by_id, pp, (fuel - 1) as nat));
            }
        },
    }
}

/// A folder's Maildir name is its parent's Maildir name followed by `.` and
/// its own sanitized name, whenever the parent is in the listing and the
/// parent's own chain of ancestors, as its naming follows it, stops short of
/// the link limit (it holds at most one link fewer than the limit).
pub proof fn lemma_child_extends_parent(
    by_id: Map<Seq<char>, (Seq<char>, Option<Seq<char>>)>,
    name: Seq<char>,
    pid: Seq<char>,
)
    requires
        by_id.contains_key(pid),
        ancestors_spec(by_id, by_id[pid].1, max_parent_links()).len() < max_parent_links(),
    ensures
        maildir_name_spec(by_id, name, Some(pid)) == maildir_name_spec(by_id, by_id[pid].0, by_id[pid].1)
            + seq!['.'] + sanitize_spec(name),
{
    let pp = by_id[pid].1;
    let sp = sanitize_spec(by_id[pid].0);
    let sc = sanitize_spec(name);
    lemma_ancestors_fuel(by_id, pp, 32);
    let a = ancestors_spec(by_id, pp, 32);
    assert(ancestors_spec(by_id, Some(pid), 33) == seq![sp] + a);
    let chain = seq![sc] + (seq![sp] + a);
    assert(chain.drop_first() =~= seq![sp] + a);
    assert(join_rev_spec(chain) == join_rev_spec(seq![sp] + a) + seq!['.'] + sc);
    assert(seq!['.'] + (join_rev_spec(seq![sp] + a) + seq!['.'] + sc) =~= (seq!['.'] + join_rev_spec(
        seq![sp] + a,
    )) + seq!['.'] + sc);
}

/// Whether `c` may stand in a segment of a folder name.
pub open spec fn segment_char_spec(c: char) -> bool {
    c != '/' && c != '.' && c != '\\' && c != ':' && !is_control_spec(c)
}

/// A sanitized name is a non-empty segment without separators, colons or
/// control characters.
pub proof fn lemma_sanitize_segment(name: Seq<char>)
    ensures
        sanitize_spec(name).len() > 0,
        forall|i: int| 0 <= i < sanitize_spec(name).len() ==> segment_char_spec(#[trigger] sanitize_spec(name)[i]),
{
}

proof fn lemma_join_rev_chars(chain: Seq<Seq<char>>)
    requires
        chain.len() > 0,
        forall|k: int| 0 <= k < chain.len() ==> (#[trigger] chain[k]).len() > 0,
        forall|k: int, i: int| 0 <= k < chain.len() && 0 <= i < chain[k].len() ==> segment_char_spec(#[trigger] chain[k][i]),
    ensures
        join_rev_spec(chain).len() > 0,
        segment_char_spec(join_rev_spec(chain)[0]),
        forall|i: int| 0 <= i < join_rev_spec(chain).len() ==> (segment_char_spec(#[trigger] join_rev_spec(chain)[i]) || join_rev_spec(chain)[i] == '.'),
    decreases chain.len(),
{
    if chain.len() == 1 {
        assert(segment_char_spec(chain[0][0]));
        assert forall|i: int| 0 <= i < join_rev_spec(chain).len() implies (segment_char_spec(#[trigger] join_rev_spec(chain)[i]) || join_rev_spec(chain)[i] == '.') by {
            assert(segment_char_spec(chain[0][i]));
        }
    } else {
        let rest = chain.drop_first();
        assert forall|k: int| 0 <= k < rest.len() implies (#[trigger] rest[k]).len() > 0 by {
            assert(rest[k] == chain[k + 1]);
        }
        assert forall|k: int, i: int| 0 <= k < rest.len() && 0 <= i < rest[k].len() implies segment_char_spec(#[trigger] rest[k][i]) by {
            assert(rest[k] == chain[k + 1]);
        }
        lemma_join_rev_chars(rest);
        let j = join_rev_spec(rest);
        let whole = j + seq!['.'] + chain[0];
        assert(join_rev_spec(chain) == whole);
        assert(whole[0] == j[0]);
        assert forall|i: int| 0 <= i < whole.len() implies (segment_char_spec(#[trigger] whole[i]) || whole[i] == '.') by {
            if i < j.len() {
                assert(whole[i] == j[i]);
            } else if i > j.len() {
                assert(whole[i] == chain[0][i - j.len() - 1]);
                assert(segment_char_spec(chain[0][i - j.len() - 1]));
            }
        }
    }
}

proof fn lemma_ancestor_segments(
    by_id: Map<Seq<char>, (Seq<char>, Option<Seq<char>>)>,
    parent: Option<Seq<char>>,
    fuel: nat,
)
    ensures
        forall|k: int| 0 <= k < ancestors_spec(by_id, parent, fuel).len() ==> exists|n: Seq<char>| #[trigger] ancestors_spec(by_id, parent, fuel)[k] == sanitize_spec(n),
    decreases fuel,
{
    if fuel > 0 {
        match parent {
            None => {},
            Some(pid) => {
                if by_id.contains_key(pid) {
                    lemma_ancestor_segments(by_id, by_id[pid].1, (fuel - 1) as nat);
                    let a = ancestors_spec(by_id, parent, fuel);
                    let r = ancestors_spec(by_id, by_id[pid].1, (fuel - 1) as nat);
                    assert forall|k: int| 0 <= k < a.len() implies exists|n: Seq<char>| #[trigger] a[k] == sanitize_spec(n) by {
                        if k == 0 {
                            assert(a[0] == sanitize_spec(by_id[pid].0));
                        } else {
                            assert(a[k] == r[k - 1]);
                        }
                    }
                }
            },
        }
    }
}

/// Every derived Maildir folder name starts with `.`, holds no path
/// separator, colon or control character, and is taken for a mail folder by
/// the scan of the data directory, unless it equals the state directory's
/// name.
pub proof fn lemma_maildir_name_is_folder_name(
    by_id: Map<Seq<char>, (Seq<char>, Option<Seq<char>>)>,
    name: Seq<char>,
    parent: Option<Seq<char>>,
)
    ensures
        ({
            let n = maildir_name_spec(by_id, name, parent);
            &&& n.len() >= 2
            &&& n[0] == '.'
            &&& forall|i: int| 0 <= i < n.len() ==> #[trigger] n[i] != '/' && n[i] != '\\' && n[i] != ':' && !is_control_spec(n[i])
            &&& (is_maildir_folder_name_spec(n) || n == state_dir_name_spec())
        }),
{
    let anc = ancestors_spec(by_id, parent, max_parent_links());
    let chain = seq![sanitize_spec(name)] + anc;
    lemma_ancestor_segments(by_id, parent, max_parent_links());
    assert forall|k: int| 0 <= k < chain.len() implies exists|n: Seq<char>| #[trigger] chain[k] == sanitize_spec(n) by {
        if k == 0 {
            assert(chain[0] == sanitize_spec(name));
        } else {
            assert(chain[k] == anc[k - 1]);
        }
    }
    assert forall|k: int| 0 <= k < chain.len() implies (#[trigger] chain[k]).len() > 0 by {
        let n = choose|n: Seq<char>| #[trigger] chain[k] == sanitize_spec(n);
        lemma_sanitize_segment(n);
    }
    assert forall|k: int, i: int| 0 <= k < chain.len() && 0 <= i < chain[k].len() implies segment_char_spec(#[trigger] chain[k][i]) by {
        let n = choose|n: Seq<char>| #[trigger] chain[k] == sanitize_spec(n);
        lemma_sanitize_segment(n);
    }
    lemma_join_rev_chars(chain);
    let j = join_rev_spec(chain);
    let n = seq!['.'] + j;
    assert forall|i: int| 0 <= i < n.len() implies #[trigger] n[i] != '/' && n[i] != '\\' && n[i] != ':' && !is_control_spec(n[i]) by {
        if i > 0 {
            assert(n[i] == j[i - 1]);
        }
    }
    assert(n[1] == j[0]);
    if n == seq!['.', '.'] {
        assert(n[1] == '.');
    }
}

/// Builds the records of a listing, by id.
fn folders_by_id(raw: &Vec<(String, String, Option<String>)>) -> (m: StrMap<FolderRecord>)
    ensures
        m@ == folders_by_id_spec(raw.deep_view()),
{
    let mut m: StrMap<FolderRecord> = StrMap::new();
    let mut i: usize = 0;
    while i < raw.len()
        invariant
            i <= raw.len(),
            m@ == folders_by_id_spec(raw.deep_view().take(i as int)),
        decreases raw.len() - i,
    {
        let (fid, name, parent) = &raw[i];
        let rec = FolderRecord { name: name.clone(), parent: parent.clone() };
        m.insert(fid.clone(), rec);
        proof {
            let t = raw.deep_view().take(i as int + 1);
            assert(t.drop_last() =~= raw.deep_view().take(i as int));
            assert(t.last() == raw.deep_view()[i as int]);
        }
        i = i + 1;
    }
    assert(raw.deep_view().take(i as int) =~= raw.deep_view());
    m
}

/// The Maildir folder name of one folder of the listing.
fn maildir_name_of(by_id: &StrMap<FolderRecord>, name: &String, parent: &Option<String>) -> (out: String)
    ensures
        out@ == maildir_name_spec(by_id@, name@, parent.deep_view()),
{
    let ghost m = by_id@;
    let mut chain: Vec<String> = Vec::new();
    chain.push(sanitize(name.as_str()));
    let mut cur: Option<String> = parent.clone();
    let mut depth: usize = 0;
    let ghost full = seq![sanitize_spec(name@)] + ancestors_spec(m, parent.deep_view(), max_parent_links());
    assert(chain.deep_view() =~= seq![sanitize_spec(name@)]);
    loop
        invariant
            m == by_id@,
            depth <= 33,
            chain.len() >= 1,
            full == seq![sanitize_spec(name@)] + ancestors_spec(m, parent.deep_view(), max_parent_links()),
            full == chain.deep_view() + ancestors_spec(m, cur.deep_view(), (33 - depth) as nat),
        ensures
            chain.len() >= 1,
            full == chain.deep_view(),
        decreases 33 - depth,
    {
        match cur {
            None => {
                assert(full =~= chain.deep_view());
                break;
            },
            Some(pid) => {
                if depth > 32 {
                    assert(full =~= chain.deep_view());
                    break;
                }
                match by_id.get(pid.as_str()) {
                    Some(rec) => {
                        proof {
                            lemma_ancestors_step(m, pid@, (33 - depth) as nat);
                        }
                        let ghost before = chain.deep_view();
                        chain.push(sanitize(rec.name.as_str()));
                        assert(chain.deep_view() =~= before.push(sanitize_spec(rec.name@)));
                        cur = rec.parent.clone();
                        depth = depth + 1;
                        assert(full =~= chain.deep_view() + ancestors_spec(m, cur.deep_view(), (33 - depth) as nat));
                    },
                    None => {
                        assert(full =~= chain.deep_view());
                        break;
                    },
                }
            },
        }
    }
    let n = chain.len();
    let mut acc = string_from(chain[n - 1].as_str());
    let mut k: usize = n - 1;
    assert(chain.deep_view().subrange(k as int, n as int) =~= seq![chain.deep_view()[k as int]]);
    while k > 0
        invariant
            n == chain.len(),
            k < n,
            acc@ == join_rev_spec(chain.deep_view().subrange(k as int, n as int)),
        decreases k,
    {
        k = k - 1;
        proof {
            lemma_join_rev_subrange(chain.deep_view(), k as int);
        }
        push_char(&mut acc, '.');
        push_str(&mut acc, chain[k].as_str());
    }
    assert(chain.deep_view().subrange(0, n as int) =~= chain.deep_view());
    let mut out = String::new();
    push_char(&mut out, '.');
    push_str(&mut out, acc.as_str());
    out
}

/// The Maildir folder of each folder of a listing of `(id, name, parent id)`
/// records, in the listing's order.
pub fn derive_maildir_names(raw: &Vec<(String, String, Option<String>)>) -> (out: Vec<Folder>)
    ensures
        out.len() == raw.len(),
        forall|i: int|
            0 <= i < raw.len() ==> (#[trigger] out@[i]).folder_id@ == raw@[i].0@
                && out@[i].maildir_name@ == maildir_name_spec(
                folders_by_id_spec(raw.deep_view()),
                raw@[i].1@,
                raw@[i].2.deep_view(),
            ),
{
    let by_id = folders_by_id(raw);
    let mut out: Vec<Folder> = Vec::new();
    let mut i: usize = 0;
    while i < raw.len()
        invariant
            i <= raw.len(),
            by_id@ == folders_by_id_spec(raw.deep_view()),
            out.len() == i,
            forall|j: int|
                0 <= j < i ==> (#[trigger] out@[j]).folder_id@ == raw@[j].0@
                    && out@[j].maildir_name@ == maildir_name_spec(
                    folders_by_id_spec(raw.deep_view()),
                    raw@[j].1@,
                    raw@[j].2.deep_view(),
                ),
        decreases raw.len() - i,
    {
        let (fid, name, parent) = &raw[i];
        let maildir_name = maildir_name_of(&by_id, name, parent);
        out.push(Folder { folder_id: fid.clone(), maildir_name });
        i = i + 1;
    }
    out
}

} // verus!
