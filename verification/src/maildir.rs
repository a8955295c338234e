//! Maildir naming: message flags, message file names, and which directory
//! entries of the data directory are mail folders.
use vstd::prelude::*;
use crate::text::{
    chars_of, contains_char, path_join, path_join_spec, push_char, push_str, str_eq, string_from,
};

verus! {

/// The two Maildir flags that mirror Zoho state: `S` (seen) and `F` (flagged).
#[derive(Clone, Copy, Debug, PartialEq, Eq, Structural)]
pub struct Flags {
    pub seen: bool,
    pub flagged: bool,
}

impl Default for Flags {
    fn default() -> (f: Self)
        ensures
            !f.seen,
            !f.flagged,
    {
        Flags { seen: false, flagged: false }
    }
}

/// The canonical flag string of `f`: `F` before `S`, as Maildir orders flags.
pub open spec fn encode_spec(f: Flags) -> Seq<char> {
    (if f.flagged { seq!['F'] } else { Seq::<char>::empty() }) + (if f.seen {
        seq!['S']
    } else {
        Seq::<char>::empty()
    })
}

/// The flags that a Maildir flag string carries; other letters are ignored.
pub open spec fn decode_spec(s: Seq<char>) -> Flags {
    Flags { seen: s.contains('S'), flagged: s.contains('F') }
}

impl Flags {
    /// The Maildir info string for these flags.
    pub fn encode(&self) -> (s: String)
        ensures
            s@ == encode_spec(*self),
    {
        let mut s = String::new();
        if self.flagged {
            push_char(&mut s, 'F');
        }
        if self.seen {
            push_char(&mut s, 'S');
        }
        assert(s@ =~= encode_spec(*self));
        s
    }

    /// Reads the flags out of a Maildir info string.
    pub fn decode(s: &str) -> (f: Flags)
        ensures
            f == decode_spec(s@),
            f.seen == s@.contains('S'),
            f.flagged == s@.contains('F'),
    {
        Flags { seen: contains_char(s, 'S'), flagged: contains_char(s, 'F') }
    }
}

/// Decoding an encoded flag set gives it back.
pub proof fn lemma_decode_encode(f: Flags)
    ensures
        decode_spec(encode_spec(f)) == f,
{
    let e = encode_spec(f);
    if f.seen {
        assert(e[e.len() - 1] == 'S');
    } else {
        assert forall|i: int| 0 <= i < e.len() implies e[i] != 'S' by {}
    }
    if f.flagged {
        assert(e[0] == 'F');
    } else {
        assert forall|i: int| 0 <= i < e.len() implies e[i] != 'F' by {}
    }
}

/// What the encoding of a flag set holds: `F` exactly when it is flagged,
/// `S` exactly when it is seen, no other letter, each at most once, `F`
/// before `S`.
pub proof fn lemma_encode_letters(f: Flags)
    ensures
        encode_spec(f).contains('F') == f.flagged,
        encode_spec(f).contains('S') == f.seen,
        forall|i: int| 0 <= i < encode_spec(f).len() ==> #[trigger] encode_spec(f)[i] == 'F' || encode_spec(f)[i] == 'S',
        encode_spec(f).len() == (if f.flagged { 1int } else { 0int }) + (if f.seen { 1int } else { 0int }),
        f.flagged && f.seen ==> encode_spec(f) == seq!['F', 'S'],
{
    let e = encode_spec(f);
    if f.flagged {
        assert(e[0] == 'F');
    }
    if f.seen {
        assert(e[e.len() - 1] == 'S');
    }
    if f.flagged && f.seen {
        assert(e =~= seq!['F', 'S']);
    }
}

/// How decoding reads a flag string letter by letter: nothing is set by the
/// empty string, `S` sets seen, `F` sets flagged, and every other letter
/// (such as `D`, `T`, `R` or `P`) changes nothing.
pub proof fn lemma_decode_letters(s: Seq<char>, c: char)
    ensures
        decode_spec(Seq::<char>::empty()) == (Flags { seen: false, flagged: false }),
        c == 'S' ==> decode_spec(s.push(c)) == (Flags { seen: true, flagged: decode_spec(s).flagged }),
        c == 'F' ==> decode_spec(s.push(c)) == (Flags { seen: decode_spec(s).seen, flagged: true }),
        c != 'S' && c != 'F' ==> decode_spec(s.push(c)) == decode_spec(s),
{
    let t = s.push(c);
    assert(t[t.len() - 1] == c);
    assert forall|x: char| t.contains(x) == (s.contains(x) || x == c) by {
        if s.contains(x) {
            let i = choose|i: int| 0 <= i < s.len() && s[i] == x;
            assert(t[i] == x);
        }
        if t.contains(x) {
            let i = choose|i: int| 0 <= i < t.len() && t[i] == x;
            if i < s.len() {
                assert(s[i] == x);
            }
        }
    }
    assert(t.contains('S') == (s.contains('S') || c == 'S'));
    assert(t.contains('F') == (s.contains('F') || c == 'F'));
}

/// The name of the data directory's entry that holds this tool's own state.
pub open spec fn state_dir_name_spec() -> Seq<char> {
    seq!['.', 'z', 'o', 'h', 'o', '-', 'm', 'a', 'i', 'l', '-', 's', 'y', 'n', 'c']
}

/// `.zoho-mail-sync`, the entry of the data directory that holds tokens and
/// metadata; it is never a mail folder.
pub fn state_dir_name() -> (s: &'static str)
    ensures
        s@ == state_dir_name_spec(),
{
    let s = ".zoho-mail-sync";
    proof {
        reveal_strlit(".zoho-mail-sync");
        assert(s@ =~= state_dir_name_spec());
    }
    s
}

/// Whether an entry of the data directory with this name is taken for a mail
/// folder: a hidden name other than `.`, `..` and the state directory.
pub open spec fn is_maildir_folder_name_spec(name: Seq<char>) -> bool {
    &&& name.len() > 0
    &&& name[0] == '.'
    &&& name != seq!['.']
    &&& name != seq!['.', '.']
    &&& name != state_dir_name_spec()
}

/// Decides whether a directory entry of the data directory is a mail folder
/// by its name; the caller still checks that it is a directory.
pub fn is_maildir_folder_name(name: &str) -> (r: bool)
    ensures
        r == is_maildir_folder_name_spec(name@),
{
    let cs = chars_of(name);
    if cs.len() == 0 || cs[0] != '.' {
        return false;
    }
    if cs.len() == 1 {
        assert(name@ =~= seq!['.']);
        return false;
    }
    if cs.len() == 2 && cs[1] == '.' {
        assert(name@ =~= seq!['.', '.']);
        return false;
    }
    let r = !str_eq(name, state_dir_name());
    proof {
        if name@ == seq!['.'] {
            assert(name@.len() == 1);
        }
        if name@ == seq!['.', '.'] {
            assert(name@[1] == '.');
        }
    }
    r
}

/// The separator between a message's unique name and its info, on Unix.
pub fn info_suffix_separator() -> (s: &'static str)
    ensures
        s@ == seq![':'],
{
    let s = ":";
    proof {
        reveal_strlit(":");
        assert(s@ =~= seq![':']);
    }
    s
}

/// The file name of a message in a folder's `cur` directory.
pub open spec fn message_file_name_spec(message_id: Seq<char>, flags: Flags) -> Seq<char> {
    message_id + seq![':', '2', ','] + encode_spec(flags)
}

/// `<message_id>:2,<flags>`, the name under which a message is stored in
/// `cur`.
pub fn message_file_name(message_id: &str, flags: Flags) -> (s: String)
    ensures
        s@ == message_file_name_spec(message_id@, flags),
{
    let mut s = string_from(message_id);
    push_str(&mut s, info_suffix_separator());
    push_char(&mut s, '2');
    push_char(&mut s, ',');
    let e = flags.encode();
    push_str(&mut s, e.as_str());
    assert(s@ =~= message_file_name_spec(message_id@, flags));
    s
}

/// Where a message is written first and where it is then renamed to.
#[derive(Clone, Debug)]
pub struct DeliveryPaths {
    /// `<data_dir>/<folder>/tmp/<message_id>`.
    pub tmp: String,
    /// `<data_dir>/<folder>/cur/<message_id>:2,<flags>`.
    pub cur: String,
}

/// The paths of a Maildir delivery of a message into a folder: the file is
/// written under `tmp` and renamed into `cur` under its final name.
pub fn delivery_paths(
    data_dir: &str,
    maildir_name: &str,
    message_id: &str,
    flags: Flags,
) -> (p: DeliveryPaths)
    ensures
        p.tmp@ == path_join_spec(
            path_join_spec(path_join_spec(data_dir@, maildir_name@), "tmp"@),
            message_id@,
        ),
        p.cur@ == path_join_spec(
            path_join_spec(path_join_spec(data_dir@, maildir_name@), "cur"@),
            message_file_name_spec(message_id@, flags),
        ),
{
    let folder = path_join(data_dir, maildir_name);
    let tmp_dir = path_join(folder.as_str(), "tmp");
    let cur_dir = path_join(folder.as_str(), "cur");
    let name = message_file_name(message_id, flags);
    DeliveryPaths {
        tmp: path_join(tmp_dir.as_str(), message_id),
        cur: path_join(cur_dir.as_str(), name.as_str()),
    }
}

/// Whether a name is one of a Maildir's own subdirectories.
pub open spec fn is_maildir_subdir_spec(name: Seq<char>) -> bool {
    name == seq!['c', 'u', 'r'] || name == seq!['n', 'e', 'w'] || name == seq!['t', 'm', 'p']
}

/// Whether `name` is one of a Maildir's own subdirectories `cur`, `new` and
/// `tmp`.
pub fn is_maildir_subdir(name: &str) -> (r: bool)
    ensures
        r == is_maildir_subdir_spec(name@),
{
    let cur = "cur";
    let new = "new";
    let tmp = "tmp";
    proof {
        reveal_strlit("cur");
        reveal_strlit("new");
        reveal_strlit("tmp");
        assert(cur@ =~= seq!['c', 'u', 'r']);
        assert(new@ =~= seq!['n', 'e', 'w']);
        assert(tmp@ =~= seq!['t', 'm', 'p']);
    }
    str_eq(name, cur) || str_eq(name, new) || str_eq(name, tmp)
}

/// Whether a folder whose entries have these names holds nothing but the
/// Maildir subdirectories `cur`, `new` and `tmp`: the condition, beside those
/// three being empty, under which a stale folder is removed.
pub fn only_maildir_subdirs(names: &Vec<String>) -> (r: bool)
    ensures
        r == (forall|i: int| 0 <= i < names@.len() ==> is_maildir_subdir_spec(#[trigger] names@[i]@)),
{
    let mut i: usize = 0;
    while i < names.len()
        invariant
            i <= names@.len(),
            forall|j: int| 0 <= j < i ==> is_maildir_subdir_spec(#[trigger] names@[j]@),
        decreases names.len() - i,
    {
        if !is_maildir_subdir(names[i].as_str()) {
            return false;
        }
        i = i + 1;
    }
    true
}

/// Whether a stale folder may be removed: each of its `cur`, `new` and
/// `tmp` subdirectories is empty (or absent), and it holds nothing else.
pub fn is_removable_maildir(
    cur_empty: bool,
    new_empty: bool,
    tmp_empty: bool,
    names: &Vec<String>,
) -> (r: bool)
    ensures
        r == (cur_empty && new_empty && tmp_empty && forall|i: int|
            0 <= i < names@.len() ==> is_maildir_subdir_spec(#[trigger] names@[i]@)),
{
    if !(cur_empty && new_empty && tmp_empty) {
        return false;
    }
    only_maildir_subdirs(names)
}

/// A message found in the local Maildir: the folder that holds it and its
/// flags.
#[derive(Clone, Debug)]
pub struct LocalEntry {
    pub maildir_name: String,
    pub flags: Flags,
}

/// The mathematical value of a [`LocalEntry`].
pub struct LocalEntryView {
    pub maildir_name: Seq<char>,
    pub flags: Flags,
}

impl View for LocalEntry {
    type V = LocalEntryView;

    open spec fn view(&self) -> LocalEntryView {
        LocalEntryView { maildir_name: self.maildir_name@, flags: self.flags }
    }
}

} // verus!
