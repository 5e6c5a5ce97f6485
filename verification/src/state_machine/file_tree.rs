//! The tree of source files below a project's source directory, and the
//! module skeleton that is printed for it.
//!
//! A directory holds its entries in the order in which they were first
//! inserted, and no name occurs twice in it.

use vstd::prelude::*;
use vstd::string::{StrSliceExecFns, StringExecFns};

verus! {

/// One entry of a directory.
#[derive(Debug)]
pub struct Entry {
    pub name: String,
    pub tree: Tree,
}

/// A file, or a directory with its entries.
#[derive(Debug)]
pub enum Tree {
    File,
    Directory(Vec<Entry>),
}

/// A tree as a mathematical value: a directory is the sequence of its
/// entries, each a name and a tree.
pub enum TreeView {
    File,
    Directory(Seq<(Seq<char>, TreeView)>),
}

impl View for Tree {
    type V = TreeView;

    open spec fn view(&self) -> TreeView {
        self.model()
    }
}

impl View for Entry {
    type V = (Seq<char>, TreeView);

    open spec fn view(&self) -> (Seq<char>, TreeView) {
        (self.name@, self.tree@)
    }
}

/// The views of a sequence of entries, in order.
pub open spec fn entries_view(entries: Seq<Entry>) -> Seq<(Seq<char>, TreeView)> {
    Seq::new(entries.len(), |i: int| entries[i]@)
}

/// The suffix that the name of a source file ends in.
pub open spec fn source_suffix() -> Seq<char> {
    seq!['.', 'a', 'c']
}

/// Whether the name ends in the suffix of source files.
pub open spec fn is_source_name(name: Seq<char>) -> bool {
    name.len() >= 3 && name.subrange(name.len() - 3, name.len() as int) == source_suffix()
}

/// The name without the three characters of its suffix.
pub open spec fn stem(name: Seq<char>) -> Seq<char>
    recommends
        is_source_name(name),
{
    name.subrange(0, name.len() - 3)
}

/// Whether the module skeleton of the tree can be printed: the tree is a
/// directory, and every file in it has a source name.
pub open spec fn printable(tree: TreeView) -> bool
    decreases tree,
{
    match tree {
        TreeView::File => false,
        TreeView::Directory(entries) => forall|i: int|
            0 <= i < entries.len() ==> match (#[trigger] entries[i]).1 {
                TreeView::File => is_source_name(entries[i].0),
                TreeView::Directory(_) => printable(entries[i].1),
            },
    }
}

/// The module skeleton of a directory: the main module, and in it one module
/// for each entry, in the order of the entries. A file gives an empty module
/// named by its stem; a directory gives a module named like it, which holds
/// the skeleton of that directory.
pub open spec fn skeleton(tree: TreeView) -> Seq<char>
    decreases tree,
{
    match tree {
        TreeView::File => Seq::empty(),
        TreeView::Directory(entries) => "mod main_module {\n"@ + entries_skeleton(entries)
            + "}\n"@,
    }
}

/// The modules for the entries of a directory.
pub open spec fn entries_skeleton(entries: Seq<(Seq<char>, TreeView)>) -> Seq<char>
    decreases entries,
{
    if entries.len() == 0 {
        Seq::empty()
    } else {
        let (name, child) = entries.last();
        entries_skeleton(entries.drop_last()) + match child {
            TreeView::File => "mod "@ + stem(name) + " {\n"@ + "}\n"@,
            TreeView::Directory(_) => "mod "@ + name + " {\n"@ + skeleton(child) + "}\n"@,
        }
    }
}

/// The index of the first entry with the name.
pub open spec fn find_entry(entries: Seq<(Seq<char>, TreeView)>, name: Seq<char>) -> Option<int>
    decreases entries.len(),
{
    if entries.len() == 0 {
        None
    } else {
        match find_entry(entries.drop_last(), name) {
            Some(i) => Some(i),
            None => if entries.last().0 == name {
                Some(entries.len() - 1)
            } else {
                None
            },
        }
    }
}

/// The entries with the name bound to the tree: in the place of the entry
/// that had the name, or behind all entries where none had it.
pub open spec fn put_entry(
    entries: Seq<(Seq<char>, TreeView)>,
    name: Seq<char>,
    tree: TreeView,
) -> Seq<(Seq<char>, TreeView)> {
    match find_entry(entries, name) {
        Some(i) => entries.update(i, (name, tree)),
        None => entries.push((name, tree)),
    }
}

/// The entries of the directory that is reached by the name: those of the
/// entry with that name, or none where there is no such directory.
pub open spec fn children(entries: Seq<(Seq<char>, TreeView)>, name: Seq<char>) -> Seq<
    (Seq<char>, TreeView),
> {
    match find_entry(entries, name) {
        Some(i) => match entries[i].1 {
            TreeView::Directory(inner) => inner,
            TreeView::File => Seq::empty(),
        },
        None => Seq::empty(),
    }
}

/// Whether the directories can be walked or made: no name on the way is the
/// name of a file.
pub open spec fn can_insert(entries: Seq<(Seq<char>, TreeView)>, dirs: Seq<Seq<char>>) -> bool
    decreases dirs.len(),
{
    dirs.len() == 0 || {
        &&& match find_entry(entries, dirs[0]) {
            Some(i) => entries[i].1 is Directory,
            None => true,
        }
        &&& can_insert(children(entries, dirs[0]), dirs.drop_first())
    }
}

/// The entries after the file was inserted below the directories, which are
/// made where they are missing. A directory that is walked keeps its place
/// among the entries; an entry named like the file is replaced by the file.
pub open spec fn insert_file(
    entries: Seq<(Seq<char>, TreeView)>,
    dirs: Seq<Seq<char>>,
    file: Seq<char>,
) -> Seq<(Seq<char>, TreeView)>
    decreases dirs.len(),
{
    if dirs.len() == 0 {
        put_entry(entries, file, TreeView::File)
    } else {
        put_entry(
            entries,
            dirs[0],
            TreeView::Directory(insert_file(children(entries, dirs[0]), dirs.drop_first(), file)),
        )
    }
}

/// No name occurs twice among the entries, nor in any directory below.
pub open spec fn unique_names(entries: Seq<(Seq<char>, TreeView)>) -> bool
    decreases entries,
{
    &&& forall|i: int, j: int| 0 <= i < j < entries.len() ==> entries[i].0 != entries[j].0
    &&& forall|i: int|
        0 <= i < entries.len() ==> match (#[trigger] entries[i]).1 {
            TreeView::File => true,
            TreeView::Directory(inner) => unique_names(inner),
        }
}

impl Tree {
    /// The tree with every string and vector replaced by its sequence.
    pub open spec fn model(&self) -> TreeView
        decreases self,
    {
        match self {
            Tree::File => TreeView::File,
            Tree::Directory(entries) => TreeView::Directory(
                Seq::new(
                    entries@.len(),
                    |i: int|
                        if 0 <= i < entries@.len() {
                            (entries@[i].name@, entries@[i].tree.model())
                        } else {
                            (Seq::empty(), TreeView::File)
                        },
                ),
            ),
        }
    }

    /// The view of a directory is the directory of the entries' views.
    pub proof fn lemma_view_directory(entries: Vec<Entry>)
        ensures
            Tree::Directory(entries)@ == TreeView::Directory(entries_view(entries@)),
    {
        let tree = Tree::Directory(entries);
        assert(tree.model()->Directory_0 =~= entries_view(entries@));
    }

    /// The entries of a directory, to change them; `None` for a file.
    pub fn map_mut(&mut self) -> (r: Option<&mut Vec<Entry>>)
        ensures
            *old(self) is File ==> r is None && *final(self) == *old(self),
            *old(self) matches Tree::Directory(entries) ==> r matches Some(inner) && *inner
                == entries && *final(self) == Tree::Directory(*final(inner)),
    {
        match self {
            Tree::File => None,
            Tree::Directory(map) => Some(map),
        }
    }
}

/// The views of a sequence of strings, in order.
pub open spec fn strings_view(strings: Seq<String>) -> Seq<Seq<char>> {
    Seq::new(strings.len(), |i: int| strings[i]@)
}

/// An entry that is found among the first entries is found among all.
proof fn lemma_find_entry_prefix(entries: Seq<(Seq<char>, TreeView)>, name: Seq<char>, n: int)
    requires
        0 <= n <= entries.len(),
        find_entry(entries.take(n), name) is Some,
    ensures
        find_entry(entries, name) == find_entry(entries.take(n), name),
    decreases entries.len(),
{
    if n == entries.len() {
        assert(entries.take(n) =~= entries);
    } else {
        assert(entries.drop_last().take(n) =~= entries.take(n));
        lemma_find_entry_prefix(entries.drop_last(), name, n);
    }
}

/// What `find_entry` finds: an index of the entries, with the name.
pub proof fn lemma_find_entry(entries: Seq<(Seq<char>, TreeView)>, name: Seq<char>)
    ensures
        match find_entry(entries, name) {
            Some(i) => 0 <= i < entries.len() && entries[i].0 == name,
            None => forall|j: int| 0 <= j < entries.len() ==> entries[j].0 != name,
        },
    decreases entries.len(),
{
    if entries.len() > 0 {
        lemma_find_entry(entries.drop_last(), name);
        if find_entry(entries, name) is None {
            assert forall|j: int| 0 <= j < entries.len() implies entries[j].0 != name by {
                if j < entries.len() - 1 {
                    assert(entries.drop_last()[j] == entries[j]);
                }
            }
        }
    }
}

/// Binding a name among entries without a repeated name repeats none.
pub proof fn lemma_put_keeps_unique(
    entries: Seq<(Seq<char>, TreeView)>,
    name: Seq<char>,
    tree: TreeView,
)
    requires
        unique_names(entries),
        tree matches TreeView::Directory(inner) ==> unique_names(inner),
    ensures
        unique_names(put_entry(entries, name, tree)),
{
    lemma_find_entry(entries, name);
    let after = put_entry(entries, name, tree);
    assert forall|i: int| 0 <= i < after.len() implies match (#[trigger] after[i]).1 {
        TreeView::File => true,
        TreeView::Directory(inner) => unique_names(inner),
    } by {
        if i < entries.len() && after[i] != (name, tree) {
            assert(after[i] == entries[i]);
        }
    }
}

/// Inserting a file into a tree without a repeated name repeats none.
pub proof fn lemma_insert_keeps_unique(
    entries: Seq<(Seq<char>, TreeView)>,
    dirs: Seq<Seq<char>>,
    file: Seq<char>,
)
    requires
        unique_names(entries),
    ensures
        unique_names(insert_file(entries, dirs, file)),
    decreases dirs.len(),
{
    if dirs.len() == 0 {
        lemma_put_keeps_unique(entries, file, TreeView::File);
    } else {
        lemma_find_entry(entries, dirs[0]);
        let below = children(entries, dirs[0]);
        assert(unique_names(below)) by {
            if let Some(i) = find_entry(entries, dirs[0]) {
                assert(entries[i].1 is Directory ==> unique_names(entries[i].1->Directory_0));
            }
        }
        lemma_insert_keeps_unique(below, dirs.drop_first(), file);
        lemma_put_keeps_unique(
            entries,
            dirs[0],
            TreeView::Directory(insert_file(below, dirs.drop_first(), file)),
        );
    }
}

/// The index of the first entry with the name.
fn position(entries: &Vec<Entry>, name: &String) -> (r: Option<usize>)
    ensures
        match r {
            Some(i) => find_entry(entries_view(entries@), name@) == Some(i as int) && i
                < entries.len(),
            None => find_entry(entries_view(entries@), name@) is None,
        },
{
    let ghost all = entries_view(entries@);
    let mut i: usize = 0;
    assert(all.take(0) =~= Seq::empty());
    while i < entries.len()
        invariant
            i <= entries.len(),
            all == entries_view(entries@),
            find_entry(all.take(i as int), name@) is None,
        decreases entries.len() - i,
    {
        proof {
            assert(all.take(i + 1).drop_last() =~= all.take(i as int));
            assert(all.take(i + 1).last() == entries[i as int]@);
        }
        if entries[i].name == *name {
            proof {
                lemma_find_entry_prefix(all, name@, i + 1);
            }
            return Some(i);
        }
        i += 1;
    }
    assert(all.take(i as int) =~= all);
    None
}

/// Binds the name to the tree among the entries.
fn put(entries: &mut Vec<Entry>, name: String, tree: Tree)
    ensures
        entries_view(final(entries)@) == put_entry(entries_view(old(entries)@), name@, tree@),
{
    match position(entries, &name) {
        Some(i) => {
            entries.remove(i);
            entries.insert(i, Entry { name, tree });
            assert(entries_view(entries@) =~= put_entry(entries_view(old(entries)@), name@, tree@));
        },
        None => {
            entries.push(Entry { name, tree });
            assert(entries_view(entries@) =~= put_entry(entries_view(old(entries)@), name@, tree@));
        },
    }
}

/// Inserts the file below the directories from `start` on.
fn insert_into(entries: &mut Vec<Entry>, dirs: &Vec<String>, start: usize, file: &String)
    requires
        start <= dirs.len(),
        can_insert(entries_view(old(entries)@), strings_view(dirs@).skip(start as int)),
    ensures
        entries_view(final(entries)@) == insert_file(
            entries_view(old(entries)@),
            strings_view(dirs@).skip(start as int),
            file@,
        ),
    decreases dirs.len() - start,
{
    let ghost rest = strings_view(dirs@).skip(start as int);
    if start == dirs.len() {
        put(entries, file.clone(), Tree::File);
    } else {
        proof {
            assert(rest[0] == dirs[start as int]@);
            assert(rest.drop_first() =~= strings_view(dirs@).skip(start + 1));
            lemma_find_entry(entries_view(entries@), rest[0]);
        }
        let mut inner: Vec<Entry> = Vec::new();
        match position(entries, &dirs[start]) {
            Some(i) => {
                let old_entry = entries.remove(i);
                match old_entry.tree {
                    Tree::Directory(found) => {
                        proof {
                            Tree::lemma_view_directory(found);
                        }
                        inner = found;
                    },
                    Tree::File => {},
                }
                insert_into(&mut inner, dirs, start + 1, file);
                proof {
                    Tree::lemma_view_directory(inner);
                }
                entries.insert(i, Entry { name: dirs[start].clone(), tree: Tree::Directory(inner) });
            },
            None => {
                assert(entries_view(inner@) =~= Seq::empty());
                insert_into(&mut inner, dirs, start + 1, file);
                proof {
                    Tree::lemma_view_directory(inner);
                }
                entries.push(Entry { name: dirs[start].clone(), tree: Tree::Directory(inner) });
            },
        }
        assert(entries_view(entries@) =~= insert_file(entries_view(old(entries)@), rest, file@));
    }
}

/// The name without its suffix.
fn stem_of(name: &str) -> (r: &str)
    requires
        is_source_name(name@),
    ensures
        r@ == stem(name@),
{
    let len = name.unicode_len();
    name.substring_char(0, len - 3)
}

/// Appends the modules for the entries.
fn write_entries(entries: &Vec<Entry>, out: &mut String)
    requires
        printable(TreeView::Directory(entries_view(entries@))),
    ensures
        final(out)@ == old(out)@ + entries_skeleton(entries_view(entries@)),
    decreases entries,
{
    let ghost all = entries_view(entries@);
    let mut i: usize = 0;
    assert(all.take(0) =~= Seq::empty());
    assert(out@ =~= old(out)@ + entries_skeleton(all.take(0)));
    while i < entries.len()
        invariant
            i <= entries.len(),
            all == entries_view(entries@),
            printable(TreeView::Directory(all)),
            out@ == old(out)@ + entries_skeleton(all.take(i as int)),
        decreases entries.len() - i,
    {
        proof {
            assert(all.take(i + 1).drop_last() =~= all.take(i as int));
            assert(all.take(i + 1).last() == entries[i as int]@);
            assert(all[i as int] == entries[i as int]@);
        }
        let ghost before = out@;
        let entry = &entries[i];
        out.append("mod ");
        match &entry.tree {
            Tree::File => {
                out.append(stem_of(entry.name.as_str()));
                out.append(" {\n");
                out.append("}\n");
                assert(out@ =~= before + ("mod "@ + stem(entry.name@) + " {\n"@ + "}\n"@));
            },
            Tree::Directory(inner) => {
                proof {
                    Tree::lemma_view_directory(*inner);
                }
                out.append(entry.name.as_str());
                out.append(" {\n");
                out.append("mod main_module {\n");
                write_entries(inner, out);
                out.append("}\n");
                out.append("}\n");
                assert(out@ =~= before + ("mod "@ + entry.name@ + " {\n"@ + skeleton(entry.tree@)
                    + "}\n"@));
            },
        }
        assert(out@ =~= old(out)@ + entries_skeleton(all.take(i + 1)));
        i += 1;
    }
    assert(all.take(i as int) =~= all);
}

impl Tree {
    /// The module skeleton of the directory.
    pub fn build_program(self) -> (r: String)
        requires
            printable(self@),
        ensures
            r@ == skeleton(self@),
    {
        let mut result = String::new();
        match &self {
            Tree::File => {},
            Tree::Directory(entries) => {
                proof {
                    Tree::lemma_view_directory(*entries);
                }
                result.append("mod main_module {\n");
                write_entries(entries, &mut result);
                result.append("}\n");
                assert(result@ =~= skeleton(self@));
            },
        }
        result
    }
}

/// Where a path is put: below the directory with the empty name and one
/// directory for each component but the last, under the name of the last
/// component. A path without components is put under the empty name.
pub open spec fn placement(components: Seq<Seq<char>>) -> (Seq<Seq<char>>, Seq<char>) {
    let full = seq![Seq::<char>::empty()] + components;
    (full.drop_last(), full.last())
}

/// The directories and the file name of a path, as `placement` gives them.
fn place(components: &Vec<String>) -> (r: (Vec<String>, String))
    ensures
        (strings_view(r.0@), r.1@) == placement(strings_view(components@)),
{
    let ghost parts = strings_view(components@);
    let mut dirs: Vec<String> = Vec::new();
    let mut file = String::new();
    let mut i: usize = 0;
    assert(parts.take(0) =~= Seq::empty());
    assert(strings_view(dirs@) =~= (seq![Seq::<char>::empty()] + parts.take(0)).drop_last());
    while i < components.len()
        invariant
            i <= components.len(),
            parts == strings_view(components@),
            strings_view(dirs@) == (seq![Seq::<char>::empty()] + parts.take(i as int)).drop_last(),
            file@ == (seq![Seq::<char>::empty()] + parts.take(i as int)).last(),
        decreases components.len() - i,
    {
        let ghost before = seq![Seq::<char>::empty()] + parts.take(i as int);
        let ghost after = seq![Seq::<char>::empty()] + parts.take(i + 1);
        dirs.push(file);
        file = components[i].clone();
        proof {
            assert(after.drop_last() =~= before);
            assert(strings_view(dirs@) =~= before.drop_last().push(before.last()));
            assert(before.drop_last().push(before.last()) =~= before);
        }
        i += 1;
    }
    assert(parts.take(i as int) =~= parts);
    (dirs, file)
}

/// Directories can always be made where there is nothing.
proof fn lemma_can_insert_fresh(dirs: Seq<Seq<char>>)
    ensures
        can_insert(Seq::empty(), dirs),
    decreases dirs.len(),
{
    if dirs.len() > 0 {
        lemma_can_insert_fresh(dirs.drop_first());
    }
}

/// Whether the directories from `start` on can be walked or made.
fn can_insert_into(entries: &Vec<Entry>, dirs: &Vec<String>, start: usize) -> (r: bool)
    requires
        start <= dirs.len(),
    ensures
        r == can_insert(entries_view(entries@), strings_view(dirs@).skip(start as int)),
    decreases dirs.len() - start,
{
    let ghost rest = strings_view(dirs@).skip(start as int);
    if start == dirs.len() {
        true
    } else {
        proof {
            assert(rest[0] == dirs[start as int]@);
            assert(rest.drop_first() =~= strings_view(dirs@).skip(start + 1));
            lemma_can_insert_fresh(rest.drop_first());
        }
        match position(entries, &dirs[start]) {
            Some(i) => match &entries[i].tree {
                Tree::Directory(inner) => {
                    proof {
                        Tree::lemma_view_directory(*inner);
                    }
                    can_insert_into(inner, dirs, start + 1)
                },
                Tree::File => false,
            },
            None => true,
        }
    }
}

/// Whether a file name has the extension of source files: whether it ends in
/// the suffix and has at least one character before it.
pub open spec fn has_source_extension(name: Seq<char>) -> bool {
    name.len() > 3 && is_source_name(name)
}

/// Whether a file name has the extension of source files.
pub fn is_source_file(name: &str) -> (r: bool)
    ensures
        r == has_source_extension(name@),
{
    let len = name.unicode_len();
    if len <= 3 {
        return false;
    }
    let r = name.get_char(len - 3) == '.' && name.get_char(len - 2) == 'a' && name.get_char(len - 1)
        == 'c';
    proof {
        let tail = name@.subrange(len - 3, len as int);
        if r {
            assert(tail =~= source_suffix());
        } else {
            assert(tail[0] == name@[len - 3]);
            assert(tail[1] == name@[len - 2]);
            assert(tail[2] == name@[len - 1]);
        }
    }
    r
}

/// Binding a source name to a file, or any name to a printable directory,
/// keeps a directory printable.
pub proof fn lemma_put_keeps_printable(
    entries: Seq<(Seq<char>, TreeView)>,
    name: Seq<char>,
    tree: TreeView,
)
    requires
        printable(TreeView::Directory(entries)),
        tree is File ==> is_source_name(name),
        tree is Directory ==> printable(tree),
    ensures
        printable(TreeView::Directory(put_entry(entries, name, tree))),
{
    lemma_find_entry(entries, name);
    let after = put_entry(entries, name, tree);
    assert forall|i: int| 0 <= i < after.len() implies match (#[trigger] after[i]).1 {
        TreeView::File => is_source_name(after[i].0),
        TreeView::Directory(_) => printable(after[i].1),
    } by {
        if i < entries.len() && after[i] != (name, tree) {
            assert(after[i] == entries[i]);
        }
    }
}

/// Inserting a file with a source name keeps a directory printable.
pub proof fn lemma_insert_keeps_printable(
    entries: Seq<(Seq<char>, TreeView)>,
    dirs: Seq<Seq<char>>,
    file: Seq<char>,
)
    requires
        printable(TreeView::Directory(entries)),
        is_source_name(file),
    ensures
        printable(TreeView::Directory(insert_file(entries, dirs, file))),
    decreases dirs.len(),
{
    if dirs.len() == 0 {
        lemma_put_keeps_printable(entries, file, TreeView::File);
    } else {
        lemma_find_entry(entries, dirs[0]);
        let below = children(entries, dirs[0]);
        assert(printable(TreeView::Directory(below))) by {
            if let Some(i) = find_entry(entries, dirs[0]) {
                assert(entries[i].1 is Directory ==> printable(entries[i].1));
            }
        }
        lemma_insert_keeps_printable(below, dirs.drop_first(), file);
        lemma_put_keeps_printable(
            entries,
            dirs[0],
            TreeView::Directory(insert_file(below, dirs.drop_first(), file)),
        );
    }
}

/// The source files of a project, by their paths below the source directory.
#[derive(Debug)]
pub struct FileTree {
    extension: String,
    tree: Tree,
    project_directory: String,
}

impl View for FileTree {
    type V = Seq<(Seq<char>, TreeView)>;

    /// The entries of the root directory.
    closed spec fn view(&self) -> Seq<(Seq<char>, TreeView)> {
        self.tree@->Directory_0
    }
}

impl FileTree {
    #[verifier::type_invariant]
    spec fn is_directory(self) -> bool {
        self.tree is Directory
    }

    /// The extension of the files that the tree is for.
    pub closed spec fn extension(&self) -> Seq<char> {
        self.extension@
    }

    /// The directory that the tree was made for.
    pub closed spec fn project_directory(&self) -> Seq<char> {
        self.project_directory@
    }

    /// An empty tree for the files with the extension `ac` below the
    /// directory.
    pub fn new(project_directory: String) -> (r: Self)
        ensures
            r@ == Seq::<(Seq<char>, TreeView)>::empty(),
            r.extension() == "ac"@,
            r.project_directory() == project_directory@,
    {
        let entries: Vec<Entry> = Vec::new();
        proof {
            Tree::lemma_view_directory(entries);
            assert(entries_view(entries@) =~= Seq::empty());
        }
        FileTree { extension: "ac".to_owned(), tree: Tree::Directory(entries), project_directory }
    }

    /// Whether the file with the given path can be inserted: whether no
    /// directory on its way is there as a file.
    pub fn can_place(&self, components: &Vec<String>) -> (r: bool)
        ensures
            r == can_insert(self@, placement(strings_view(components@)).0),
    {
        proof {
            use_type_invariant(self);
        }
        let (dirs, _) = place(components);
        proof {
            assert(strings_view(dirs@).skip(0) =~= strings_view(dirs@));
        }
        match &self.tree {
            Tree::Directory(entries) => {
                proof {
                    Tree::lemma_view_directory(*entries);
                }
                can_insert_into(entries, &dirs, 0)
            },
            Tree::File => true,
        }
    }

    /// Inserts the file with the given path, component by component below
    /// the source directory.
    pub fn insert(&mut self, components: &Vec<String>)
        requires
            can_insert(old(self)@, placement(strings_view(components@)).0),
        ensures
            final(self)@ == insert_file(
                old(self)@,
                placement(strings_view(components@)).0,
                placement(strings_view(components@)).1,
            ),
            final(self).extension() == old(self).extension(),
            final(self).project_directory() == old(self).project_directory(),
            unique_names(old(self)@) ==> unique_names(final(self)@),
    {
        proof {
            use_type_invariant(&*self);
            if unique_names(self@) {
                lemma_insert_keeps_unique(
                    self@,
                    placement(strings_view(components@)).0,
                    placement(strings_view(components@)).1,
                );
            }
        }
        let (dirs, file) = place(components);
        proof {
            assert(strings_view(dirs@).skip(0) =~= strings_view(dirs@));
        }
        let mut entries: Vec<Entry> = Vec::new();
        let mut taken = Tree::Directory(Vec::new());
        std::mem::swap(&mut taken, &mut self.tree);
        match taken {
            Tree::Directory(found) => {
                proof {
                    Tree::lemma_view_directory(found);
                }
                entries = found;
            },
            Tree::File => {},
        }
        insert_into(&mut entries, &dirs, 0, &file);
        proof {
            Tree::lemma_view_directory(entries);
        }
        self.tree = Tree::Directory(entries);
    }

    /// The module skeleton of the tree.
    pub fn build_program(self) -> (r: String)
        requires
            printable(TreeView::Directory(self@)),
        ensures
            r@ == skeleton(TreeView::Directory(self@)),
    {
        proof {
            use_type_invariant(&self);
        }
        self.tree.build_program()
    }
}

} // verus!
