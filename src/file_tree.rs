//! The indexed directory tree and how it is built from a directory scan.
use vstd::prelude::*;
use vstd::string::*;

verus! {

broadcast use {vstd::seq::group_seq_axioms, vstd::std_specs::vec::group_vec_axioms};

/// One node of the indexed tree.
pub struct FileEntry {
    pub name: String,
    pub is_dir: bool,
    pub children: Vec<FileEntry>,
}

/// What a scan of the filesystem found at one path: its own name, whether it
/// is a directory, whether its listing could be read, and the entries of that
/// listing in the order the filesystem gave them.
pub struct DirScan {
    pub name: String,
    pub is_dir: bool,
    pub readable: bool,
    pub children: Vec<DirScan>,
}

impl FileEntry {
    /// A file has no children, and every node below is well formed too.
    pub open spec fn wf(self) -> bool
        decreases self,
    {
        &&& (!self.is_dir ==> self.children@.len() == 0)
        &&& forall|i: int|
            0 <= i < self.children@.len() ==> (#[trigger] self.children@[i]).wf()
    }

    /// A node with the given name, no children, not a directory.
    pub fn new(name: String) -> (r: FileEntry)
        ensures
            r.name == name,
            !r.is_dir,
            r.children@.len() == 0,
    {
        FileEntry { name, is_dir: false, children: Vec::new() }
    }
}

impl Default for FileEntry {
    fn default() -> (r: FileEntry)
        ensures
            r.name@.len() == 0,
            !r.is_dir,
            r.children@.len() == 0,
    {
        FileEntry::new(String::new())
    }
}

/// A directory whose name begins with a dot.
pub open spec fn is_hidden(e: DirScan) -> bool {
    e.is_dir && e.name@.len() > 0 && e.name@[0] == '.'
}

/// An entry that the tree shows: no hidden directory, and no directory whose
/// listing failed.
pub open spec fn shown(e: DirScan) -> bool {
    !is_hidden(e) && (e.is_dir ==> e.readable)
}

/// Three-way comparison of names by code point, from position `i` on:
/// negative, zero or positive.
pub open spec fn cmp_from(a: Seq<char>, b: Seq<char>, i: int) -> int
    decreases a.len() - i,
{
    if i < 0 || i >= a.len() {
        if i >= 0 && i < b.len() {
            -1
        } else {
            0
        }
    } else if i >= b.len() {
        1
    } else if (a[i] as u32) != (b[i] as u32) {
        if (a[i] as u32) < (b[i] as u32) {
            -1
        } else {
            1
        }
    } else {
        cmp_from(a, b, i + 1)
    }
}

/// Lexicographic comparison of two names.
pub open spec fn name_cmp(a: Seq<char>, b: Seq<char>) -> int {
    cmp_from(a, b, 0)
}

/// The order of the scan's entries: by name, then by position.
pub open spec fn entry_lt(s: Seq<DirScan>, x: int, y: int) -> bool {
    let c = name_cmp(s[x].name@, s[y].name@);
    c < 0 || (c == 0 && x < y)
}

/// `ord` lists the positions of exactly the shown entries of `s`, in order.
pub open spec fn shown_order(s: Seq<DirScan>, ord: Seq<usize>) -> bool {
    &&& forall|k: int|
        0 <= k < ord.len() ==> #[trigger] ord[k] < s.len() && shown(s[ord[k] as int])
    &&& forall|i: int| 0 <= i < s.len() && shown(s[i]) ==> ord.contains(i as usize)
    &&& forall|k: int|
        0 <= k < ord.len() - 1 ==> entry_lt(s, #[trigger] ord[k] as int, ord[k + 1] as int)
}

/// The relative path of a directory named `name` under `prefix`.
pub open spec fn join(prefix: Seq<char>, name: Seq<char>) -> Seq<char> {
    if prefix.len() == 0 {
        name
    } else {
        prefix + seq!['/'] + name
    }
}

/// `out` is the list of nodes built from the listing `s` of the directory at
/// relative path `prefix`: one node per shown entry, sorted by name; a
/// directory is named by its relative path and holds its own listing, a file
/// by its own name with no children.
pub open spec fn level_model(prefix: Seq<char>, s: Seq<DirScan>, out: Seq<FileEntry>) -> bool
    decreases s,
{
    exists|ord: Seq<usize>|
        #[trigger] shown_order(s, ord) && out.len() == ord.len() && forall|k: int|
            0 <= k < ord.len() ==> {
                let j = ord[k] as int;
                &&& 0 <= j < s.len()
                &&& (#[trigger] out[k]).is_dir == s[j].is_dir
                &&& if s[j].is_dir {
                    &&& out[k].name@ == join(prefix, s[j].name@)
                    &&& level_model(join(prefix, s[j].name@), s[j].children@, out[k].children@)
                } else {
                    &&& out[k].name@ == s[j].name@
                    &&& out[k].children@.len() == 0
                }
            }
}

/// `t` is the tree built under the title `title` from the scan of the root.
pub open spec fn tree_model(title: Seq<char>, root: DirScan, t: FileEntry) -> bool {
    &&& t.name@ == title
    &&& t.is_dir
    &&& if root.is_dir && root.readable {
        level_model(Seq::empty(), root.children@, t.children@)
    } else {
        t.children@.len() == 0
    }
}

/// Compares two names by code point.
fn compare_names(a: &String, b: &String) -> (c: i8)
    ensures
        c as int == name_cmp(a@, b@),
{
    let la = a.as_str().unicode_len();
    let lb = b.as_str().unicode_len();
    let mut i: usize = 0;
    while i < la && i < lb
        invariant
            la == a@.len(),
            lb == b@.len(),
            i <= la,
            i <= lb,
            cmp_from(a@, b@, 0) == cmp_from(a@, b@, i as int),
        decreases la - i,
    {
        let x = a.as_str().get_char(i);
        let y = b.as_str().get_char(i);
        if x as u32 != y as u32 {
            if (x as u32) < (y as u32) {
                return -1;
            } else {
                return 1;
            }
        }
        i = i + 1;
    }
    if i < la {
        1
    } else if i < lb {
        -1
    } else {
        0
    }
}

proof fn lemma_cmp_antisym(a: Seq<char>, b: Seq<char>, i: int)
    requires
        0 <= i,
    ensures
        cmp_from(a, b, i) == -cmp_from(b, a, i),
    decreases a.len() - i,
{
    if i < a.len() && i < b.len() && (a[i] as u32) == (b[i] as u32) {
        lemma_cmp_antisym(a, b, i + 1);
    }
}

/// Whether an entry is shown in the tree.
fn is_shown(e: &DirScan) -> (r: bool)
    ensures
        r == shown(*e),
{
    if e.is_dir {
        if !e.readable {
            return false;
        }
        if e.name.as_str().unicode_len() > 0 && e.name.as_str().get_char(0) == '.' {
            return false;
        }
    }
    true
}

/// `ord` lists the positions of the shown entries among the first `n` of
/// `s`, in order.
spec fn prefix_order(s: Seq<DirScan>, ord: Seq<usize>, n: int) -> bool {
    &&& forall|k: int| 0 <= k < ord.len() ==> #[trigger] ord[k] < n && shown(s[ord[k] as int])
    &&& forall|x: int| 0 <= x < n && shown(s[x]) ==> ord.contains(x as usize)
    &&& forall|k: int|
        0 <= k < ord.len() - 1 ==> entry_lt(s, #[trigger] ord[k] as int, ord[k + 1] as int)
}

proof fn lemma_insert_in_order(s: Seq<DirScan>, ord: Seq<usize>, p: int, i: int)
    requires
        0 <= i < s.len(),
        i < usize::MAX,
        shown(s[i]),
        prefix_order(s, ord, i),
        0 <= p <= ord.len(),
        p > 0 ==> name_cmp(s[ord[p - 1] as int].name@, s[i].name@) <= 0,
        forall|k: int|
            p <= k < ord.len() ==> name_cmp(s[#[trigger] ord[k] as int].name@, s[i].name@) > 0,
    ensures
        prefix_order(s, ord.insert(p, i as usize), i + 1),
{
    let nord = ord.insert(p, i as usize);
    ord.insert_ensures(p, i as usize);
    assert forall|k: int| 0 <= k < nord.len() - 1 implies entry_lt(
        s,
        #[trigger] nord[k] as int,
        nord[k + 1] as int,
    ) by {
        if k < p - 1 {
            assert(nord[k] == ord[k] && nord[k + 1] == ord[k + 1]);
        } else if k == p - 1 {
            assert(nord[k] == ord[k] && nord[k + 1] == i);
        } else if k == p {
            assert(nord[k] == i && nord[k + 1] == ord[k]);
            lemma_cmp_antisym(s[ord[k] as int].name@, s[i].name@, 0);
        } else {
            assert(nord[k] == ord[k - 1] && nord[k + 1] == ord[k]);
        }
    }
    assert forall|k: int| 0 <= k < nord.len() implies #[trigger] nord[k] < i + 1 && shown(
        s[nord[k] as int],
    ) by {
        if k < p {
            assert(nord[k] == ord[k]);
        } else if k > p {
            assert(nord[k] == ord[k - 1]);
        }
    }
    assert forall|x: int| 0 <= x < i + 1 && shown(s[x]) implies nord.contains(x as usize) by {
        if x == i {
            assert(nord[p] == i);
        } else {
            assert(ord.contains(x as usize));
            let y = choose|y: int| 0 <= y < ord.len() && ord[y] == x as usize;
            if y < p {
                assert(nord[y] == x as usize);
            } else {
                assert(nord[y + 1] == x as usize);
            }
        }
    }
}

/// The positions of the shown entries of a listing, sorted by name.
fn shown_positions(s: &Vec<DirScan>) -> (ord: Vec<usize>)
    ensures
        shown_order(s@, ord@),
{
    let mut ord: Vec<usize> = Vec::new();
    let mut i: usize = 0;
    while i < s.len()
        invariant
            i <= s@.len(),
            prefix_order(s@, ord@, i as int),
        decreases s@.len() - i,
    {
        if is_shown(&s[i]) {
            let mut p: usize = ord.len();
            while p > 0 && compare_names(&s[ord[p - 1]].name, &s[i].name) > 0
                invariant
                    p <= ord@.len(),
                    i < s@.len(),
                    prefix_order(s@, ord@, i as int),
                    forall|k: int|
                        p <= k < ord@.len() ==> name_cmp(
                            s@[#[trigger] ord@[k] as int].name@,
                            s@[i as int].name@,
                        ) > 0,
                decreases p,
            {
                p = p - 1;
            }
            proof {
                lemma_insert_in_order(s@, ord@, p as int, i as int);
            }
            ord.insert(p, i);
        }
        i = i + 1;
    }
    ord
}

/// The relative path of `name` under `prefix`.
fn join_path(prefix: &String, name: &String) -> (r: String)
    ensures
        r@ == join(prefix@, name@),
{
    if prefix.as_str().unicode_len() == 0 {
        name.clone()
    } else {
        let mut r = prefix.clone();
        r.append("/");
        proof {
            reveal_strlit("/");
        }
        r.append(name.as_str());
        r
    }
}

/// Builds the nodes of the listing `s` of the directory at relative path
/// `prefix`.
fn build_level(prefix: &String, s: &Vec<DirScan>) -> (out: Vec<FileEntry>)
    ensures
        level_model(prefix@, s@, out@),
    decreases s@,
{
    let ord = shown_positions(s);
    let mut out: Vec<FileEntry> = Vec::new();
    let mut k: usize = 0;
    while k < ord.len()
        invariant
            shown_order(s@, ord@),
            k <= ord@.len(),
            out@.len() == k,
            forall|m: int|
                0 <= m < k ==> {
                    let j = ord@[m] as int;
                    &&& 0 <= j < s@.len()
                    &&& (#[trigger] out@[m]).is_dir == s@[j].is_dir
                    &&& if s@[j].is_dir {
                        &&& out@[m].name@ == join(prefix@, s@[j].name@)
                        &&& level_model(
                            join(prefix@, s@[j].name@),
                            s@[j].children@,
                            out@[m].children@,
                        )
                    } else {
                        &&& out@[m].name@ == s@[j].name@
                        &&& out@[m].children@.len() == 0
                    }
                },
        decreases ord@.len() - k,
    {
        let j = ord[k];
        let e = &s[j];
        if e.is_dir {
            let rel = join_path(prefix, &e.name);
            proof {
                assert(decreases_to!(s@ => s@[j as int]));
            }
            let kids = build_level(&rel, &e.children);
            out.push(FileEntry { name: rel, is_dir: true, children: kids });
        } else {
            out.push(FileEntry::new(e.name.clone()));
        }
        k = k + 1;
    }
    assert(shown_order(s@, ord@));
    out
}

/// Builds the tree of a scanned directory: the root is named `title` and
/// holds every shown entry, sorted by name, recursively.
pub fn path_to_tree(title: String, dir: &DirScan) -> (t: FileEntry)
    ensures
        tree_model(title@, *dir, t),
        t.wf(),
{
    let mut root = FileEntry::new(title);
    root.is_dir = true;
    if dir.is_dir && dir.readable {
        let empty = String::new();
        root.children = build_level(&empty, &dir.children);
    }
    proof {
        lemma_tree_wf(title@, *dir, root);
    }
    root
}

/// The node `n` stands for the scanned entry `e` of the directory at `prefix`:
/// same kind, and named by relative path (a directory) or own name (a file).
pub open spec fn stands_for(prefix: Seq<char>, e: DirScan, n: FileEntry) -> bool {
    &&& n.is_dir == e.is_dir
    &&& n.name@ == if e.is_dir {
        join(prefix, e.name@)
    } else {
        e.name@
    }
}

proof fn lemma_level_witness(prefix: Seq<char>, s: Seq<DirScan>, out: Seq<FileEntry>) -> (ord:
    Seq<usize>)
    requires
        level_model(prefix, s, out),
    ensures
        shown_order(s, ord),
        out.len() == ord.len(),
        forall|k: int|
            0 <= k < ord.len() ==> 0 <= #[trigger] ord[k] < s.len() && stands_for(
                prefix,
                s[ord[k] as int],
                out[k],
            ),
        forall|k: int|
            0 <= k < ord.len() ==> if s[#[trigger] ord[k] as int].is_dir {
                level_model(
                    join(prefix, s[ord[k] as int].name@),
                    s[ord[k] as int].children@,
                    out[k].children@,
                )
            } else {
                out[k].children@.len() == 0
            },
{
    choose|ord: Seq<usize>|
        #[trigger] shown_order(s, ord) && out.len() == ord.len() && forall|k: int|
            0 <= k < ord.len() ==> {
                let j = ord[k] as int;
                &&& 0 <= j < s.len()
                &&& (#[trigger] out[k]).is_dir == s[j].is_dir
                &&& if s[j].is_dir {
                    &&& out[k].name@ == join(prefix, s[j].name@)
                    &&& level_model(join(prefix, s[j].name@), s[j].children@, out[k].children@)
                } else {
                    &&& out[k].name@ == s[j].name@
                    &&& out[k].children@.len() == 0
                }
            }
}

proof fn lemma_level_wf(prefix: Seq<char>, s: Seq<DirScan>, out: Seq<FileEntry>)
    requires
        level_model(prefix, s, out),
    ensures
        forall|k: int| 0 <= k < out.len() ==> (#[trigger] out[k]).wf(),
    decreases s,
{
    let ord = lemma_level_witness(prefix, s, out);
    assert forall|k: int| 0 <= k < out.len() implies (#[trigger] out[k]).wf() by {
        let j = ord[k] as int;
        if s[j].is_dir {
            assert(decreases_to!(s => s[j]));
            lemma_level_wf(join(prefix, s[j].name@), s[j].children@, out[k].children@);
        }
    }
}

/// A tree built from a scan is well formed.
pub proof fn lemma_tree_wf(title: Seq<char>, root: DirScan, t: FileEntry)
    requires
        tree_model(title, root, t),
    ensures
        t.wf(),
{
    if root.is_dir && root.readable {
        lemma_level_wf(Seq::empty(), root.children@, t.children@);
    }
}

/// The node `n` stands for some entry of the listing `s` that is not a
/// dot-prefixed directory.
pub open spec fn has_source(prefix: Seq<char>, s: Seq<DirScan>, n: FileEntry) -> bool {
    exists|j: int|
        0 <= j < s.len() && !is_hidden(#[trigger] s[j]) && stands_for(prefix, s[j], n)
}

/// Some node of `out` stands for the entry `e`.
pub open spec fn has_node(prefix: Seq<char>, e: DirScan, out: Seq<FileEntry>) -> bool {
    exists|k: int| 0 <= k < out.len() && stands_for(prefix, e, #[trigger] out[k])
}

/// The root's children are exactly the shown entries of its listing: every
/// child stands for an entry that is no dot-prefixed directory (so nothing
/// inside such a directory appears either), every other readable entry has
/// a child, and the children are sorted by raw name.
pub proof fn lemma_hidden_dirs_excluded(title: Seq<char>, root: DirScan, t: FileEntry)
    requires
        tree_model(title, root, t),
        root.is_dir && root.readable,
    ensures
        forall|k: int|
            0 <= k < t.children@.len() ==> has_source(
                Seq::empty(),
                root.children@,
                #[trigger] t.children@[k],
            ),
        forall|j: int|
            0 <= j < root.children@.len() && shown(#[trigger] root.children@[j]) ==> has_node(
                Seq::empty(),
                root.children@[j],
                t.children@,
            ),
        forall|k: int|
            0 <= k < t.children@.len() - 1 ==> name_cmp(
                (#[trigger] t.children@[k]).name@,
                t.children@[k + 1].name@,
            ) <= 0,
{
    let s = root.children@;
    let out = t.children@;
    let e = Seq::<char>::empty();
    let ord = lemma_level_witness(e, s, out);
    assert(root.children.len() == s.len());
    assert forall|k: int| 0 <= k < out.len() implies has_source(e, s, #[trigger] out[k]) by {
        let j = ord[k] as int;
        assert(!is_hidden(s[j]) && stands_for(e, s[j], out[k]));
    }
    assert forall|j: int| 0 <= j < s.len() && shown(#[trigger] s[j]) implies has_node(
        e,
        s[j],
        out,
    ) by {
        assert(ord.contains(j as usize));
        let k = choose|k: int| 0 <= k < ord.len() && ord[k] == j as usize;
        assert(stands_for(e, s[ord[k] as int], out[k]));
    }
    assert forall|k: int| 0 <= k < out.len() - 1 implies name_cmp(
        (#[trigger] out[k]).name@,
        out[k + 1].name@,
    ) <= 0 by {
        assert(entry_lt(s, ord[k] as int, ord[k + 1] as int));
        assert(stands_for(e, s[ord[k] as int], out[k]));
        assert(stands_for(e, s[ord[k + 1] as int], out[k + 1]));
    }
}

/// A dot-prefixed file of the root's listing is kept: the root has a child
/// that is a file of the same name.
pub proof fn lemma_dot_files_kept(title: Seq<char>, root: DirScan, t: FileEntry, j: int)
    requires
        tree_model(title, root, t),
        root.is_dir && root.readable,
        0 <= j < root.children@.len(),
        !root.children@[j].is_dir,
        root.children@[j].name@.len() > 0 && root.children@[j].name@[0] == '.',
    ensures
        exists|k: int|
            0 <= k < t.children@.len() && (#[trigger] t.children@[k]).name@
                == root.children@[j].name@ && !t.children@[k].is_dir,
{
    lemma_hidden_dirs_excluded(title, root, t);
    assert(shown(root.children@[j]));
    assert(has_node(Seq::empty(), root.children@[j], t.children@));
}

/// A subdirectory whose listing cannot be read costs no sibling: every
/// other shown entry of the root's listing still has a child in the tree.
pub proof fn lemma_unreadable_dir_keeps_siblings(
    title: Seq<char>,
    root: DirScan,
    t: FileEntry,
    u: int,
)
    requires
        tree_model(title, root, t),
        root.is_dir && root.readable,
        0 <= u < root.children@.len(),
        root.children@[u].is_dir && !root.children@[u].readable,
    ensures
        forall|j: int|
            0 <= j < root.children@.len() && j != u && shown(#[trigger] root.children@[j])
                ==> has_node(Seq::empty(), root.children@[j], t.children@),
{
    lemma_hidden_dirs_excluded(title, root, t);
}

} // verus!
