//! The directory tree: what a scan keeps of a listing, and how many images it holds.

use vstd::prelude::*;
use crate::filename::{is_image_name, spec_is_image_name};
use crate::path::{copy_name, names_view, lemma_names_push};

verus! {

/// One directory: its own name, the images directly inside it and its
/// subdirectories, each in the order in which the listing gave them.
#[derive(Debug, PartialEq, Eq)]
pub struct DirectoryNode {
    pub name: Vec<u8>,
    pub images: Vec<Vec<u8>>,
    pub children: Vec<DirectoryNode>,
}

/// The mathematical form of a `DirectoryNode`.
pub struct Tree {
    pub name: Seq<u8>,
    pub images: Seq<Seq<u8>>,
    pub children: Seq<Tree>,
}

/// One entry of a directory listing, as it was read.
#[derive(Debug, PartialEq, Eq)]
pub enum Entry {
    /// A file, by its name.
    File { name: Vec<u8> },
    /// A subdirectory, by its name, with its own listing.
    Directory { name: Vec<u8>, entries: Vec<Entry> },
    /// A subdirectory, by its name, whose listing could not be read.
    UnreadableDirectory { name: Vec<u8> },
    /// An entry of which not even the kind could be read.
    Unreadable,
}

/// The mathematical form of an `Entry`.
pub enum Listed {
    File { name: Seq<u8> },
    Directory { name: Seq<u8>, entries: Seq<Listed> },
    UnreadableDirectory { name: Seq<u8> },
    Unreadable,
}

/// The tree that a node stands for.
pub open spec fn tree_of(node: DirectoryNode) -> Tree
    decreases node,
{
    Tree {
        name: node.name@,
        images: names_view(node.images@),
        children: Seq::new(
            node.children.len() as nat,
            |i: int|
                if 0 <= i < node.children.len() {
                    tree_of(node.children[i])
                } else {
                    arbitrary()
                },
        ),
    }
}

/// The listing entry that an entry stands for.
pub open spec fn listed_of(entry: Entry) -> Listed
    decreases entry,
{
    match entry {
        Entry::File { name } => Listed::File { name: name@ },
        Entry::Directory { name, entries } => Listed::Directory {
            name: name@,
            entries: Seq::new(
                entries.len() as nat,
                |i: int|
                    if 0 <= i < entries.len() {
                        listed_of(entries[i])
                    } else {
                        arbitrary()
                    },
            ),
        },
        Entry::UnreadableDirectory { name } => Listed::UnreadableDirectory { name: name@ },
        Entry::Unreadable => Listed::Unreadable,
    }
}

impl View for DirectoryNode {
    type V = Tree;

    open spec fn view(&self) -> Tree {
        tree_of(*self)
    }
}

impl View for Entry {
    type V = Listed;

    open spec fn view(&self) -> Listed {
        listed_of(*self)
    }
}

/// What a listing holds: the mathematical form of each entry, in order.
pub open spec fn entries_view(entries: Seq<Entry>) -> Seq<Listed> {
    entries.map_values(|entry: Entry| entry@)
}

/// What a list of nodes holds: the tree of each, in order.
pub open spec fn nodes_view(nodes: Seq<DirectoryNode>) -> Seq<Tree> {
    nodes.map_values(|node: DirectoryNode| node@)
}

/// The names that a scan keeps as images of a directory: those of the listing's
/// files that carry an image extension, in the listing's order.
pub open spec fn kept_images(entries: Seq<Listed>) -> Seq<Seq<u8>>
    decreases entries.len(),
{
    if entries.len() == 0 {
        Seq::empty()
    } else {
        let rest = kept_images(entries.drop_last());
        match entries.last() {
            Listed::File { name } => if spec_is_image_name(name) {
                rest.push(name)
            } else {
                rest
            },
            _ => rest,
        }
    }
}

/// The subtrees that a scan keeps of a directory: one for each subdirectory of the
/// listing that could be listed, in the listing's order, whether or not it holds
/// an image.
pub open spec fn kept_children(entries: Seq<Listed>) -> Seq<Tree>
    decreases entries,
{
    if entries.len() == 0 {
        Seq::empty()
    } else {
        let rest = kept_children(entries.drop_last());
        match entries.last() {
            Listed::Directory { name, entries: inner } => rest.push(
                Tree { name, images: kept_images(inner), children: kept_children(inner) },
            ),
            _ => rest,
        }
    }
}

/// The tree that a scan builds of a directory called `name` with the given listing.
pub open spec fn scanned(name: Seq<u8>, entries: Seq<Listed>) -> Tree {
    Tree { name, images: kept_images(entries), children: kept_children(entries) }
}

/// The number of images in all the trees of `forest`.
pub open spec fn count_forest(forest: Seq<Tree>) -> nat
    decreases forest,
{
    if forest.len() == 0 {
        0
    } else {
        count_forest(forest.drop_last()) + forest.last().count_images()
    }
}

impl Tree {
    /// The number of images in the directory and in everything below it.
    pub open spec fn count_images(self) -> nat
        decreases self,
    {
        self.images.len() + count_forest(self.children)
    }
}

/// A directory's view lists the views of its subdirectories.
pub proof fn lemma_children_view(node: DirectoryNode)
    ensures
        node@.children == nodes_view(node.children@),
{
}

/// A subdirectory entry's view lists the views of its own entries.
pub proof fn lemma_directory_view(entry: Entry)
    requires
        entry is Directory,
    ensures
        entry@ == (Listed::Directory {
            name: entry->Directory_name@,
            entries: entries_view(entry->entries@),
        }),
{
    assert(entry@->entries =~= entries_view(entry->entries@));
}

/// The images of the first trees of a forest are among the images of the forest.
pub proof fn lemma_count_forest_prefix(forest: Seq<Tree>, n: int)
    requires
        0 <= n <= forest.len(),
    ensures
        count_forest(forest.subrange(0, n)) <= count_forest(forest),
    decreases forest.len(),
{
    if n == forest.len() {
        assert(forest.subrange(0, n) =~= forest);
    } else {
        lemma_count_forest_prefix(forest.drop_last(), n);
        assert(forest.drop_last().subrange(0, n) =~= forest.subrange(0, n));
    }
}

/// Why a scan could not be made.
#[derive(Debug, PartialEq, Eq)]
pub enum ScanError {
    /// The chosen directory itself could not be listed.
    RootUnreadable,
}

impl DirectoryNode {
    /// A directory of the given name with nothing in it.
    pub fn new(name: Vec<u8>) -> (r: DirectoryNode)
        ensures
            r@ == (Tree { name: name@, images: Seq::empty(), children: Seq::empty() }),
    {
        let r = DirectoryNode { name, images: Vec::new(), children: Vec::new() };
        assert(r@.images =~= Seq::empty());
        assert(r@.children =~= Seq::empty());
        r
    }

    /// The number of images in the directory and in everything below it.
    pub fn count_images(&self) -> (count: usize)
        requires
            self@.count_images() <= usize::MAX,
        ensures
            count == self@.count_images(),
        decreases self,
    {
        let mut count: usize = self.images.len();
        let ghost forest = self@.children;
        let mut i: usize = 0;
        while i < self.children.len()
            invariant
                i <= self.children.len(),
                forest == nodes_view(self.children@),
                self.images.len() + count_forest(forest) <= usize::MAX,
                count == self.images.len() + count_forest(forest.subrange(0, i as int)),
            decreases self.children.len() - i,
        {
            proof {
                lemma_count_forest_prefix(forest, i + 1);
                assert(forest.subrange(0, i + 1).drop_last() =~= forest.subrange(0, i as int));
            }
            let child = &self.children[i];
            count = count + child.count_images();
            i += 1;
        }
        assert(forest.subrange(0, i as int) =~= forest);
        count
    }
}

/// Adds to `parent` what a scan keeps of `entries`: the image files as images and
/// the subdirectories, each scanned in turn, as children. Other files, and entries
/// and subdirectories that could not be read, are passed over: one of them does
/// not end the scan.
pub fn insert_children(parent: &mut DirectoryNode, entries: &Vec<Entry>)
    ensures
        final(parent)@.name == old(parent)@.name,
        final(parent)@.images == old(parent)@.images + kept_images(entries_view(entries@)),
        final(parent)@.children == old(parent)@.children + kept_children(entries_view(entries@)),
    decreases entries,
{
    let ghost listing = entries_view(entries@);
    let mut i: usize = 0;
    while i < entries.len()
        invariant
            i <= entries.len(),
            listing == entries_view(entries@),
            parent@.name == old(parent)@.name,
            parent@.images == old(parent)@.images + kept_images(listing.subrange(0, i as int)),
            parent@.children == old(parent)@.children + kept_children(
                listing.subrange(0, i as int),
            ),
        decreases entries.len() - i,
    {
        let ghost before = *parent;
        proof {
            assert(listing.subrange(0, i + 1).drop_last() =~= listing.subrange(0, i as int));
            lemma_children_view(before);
        }
        match &entries[i] {
            Entry::File { name } => {
                if is_image_name(name) {
                    let kept = copy_name(name);
                    proof {
                        lemma_names_push(parent.images@, kept);
                    }
                    parent.images.push(kept);
                }
            },
            Entry::Directory { name, entries: inner } => {
                proof {
                    lemma_directory_view(entries[i as int]);
                }
                let mut child = DirectoryNode::new(copy_name(name));
                insert_children(&mut child, inner);
                parent.children.push(child);
                proof {
                    lemma_children_view(*parent);
                    assert(nodes_view(parent.children@) =~= nodes_view(before.children@).push(
                        child@,
                    ));
                }
            },
            Entry::UnreadableDirectory { .. } => {},
            Entry::Unreadable => {},
        }
        i += 1;
    }
    assert(listing.subrange(0, i as int) =~= listing);
}

/// Scans a directory: the tree of the directory called `root_name` whose listing
/// was read as `listing`. A directory that could not be listed gives no tree.
pub fn scan(root_name: &Vec<u8>, listing: Option<&Vec<Entry>>) -> (r: Result<
    DirectoryNode,
    ScanError,
>)
    ensures
        match listing {
            Some(entries) => r matches Ok(node) && node@ == scanned(
                root_name@,
                entries_view(entries@),
            ),
            None => r == Err::<DirectoryNode, ScanError>(ScanError::RootUnreadable),
        },
{
    match listing {
        Some(entries) => {
            let mut root = DirectoryNode::new(copy_name(root_name));
            insert_children(&mut root, entries);
            Ok(root)
        },
        None => Err(ScanError::RootUnreadable),
    }
}

} // verus!
