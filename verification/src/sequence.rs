//! The projection of a directory tree onto one ordered sequence of image paths.

use vstd::prelude::*;
use crate::path::{FilePath, paths_view, lemma_paths_push, starts_with};
use crate::tree::{DirectoryNode, Tree, count_forest, nodes_view};

verus! {

/// The paths of a directory's own images: each name joined to the directory's path,
/// in stored order.
pub open spec fn own_paths(images: Seq<Seq<u8>>, base: Seq<Seq<u8>>) -> Seq<Seq<Seq<u8>>> {
    images.map_values(|image: Seq<u8>| base.push(image))
}

/// The projections of the trees of `forest`, one after the other, each under its
/// own name below `base`.
pub open spec fn project_forest(forest: Seq<Tree>, base: Seq<Seq<u8>>) -> Seq<Seq<Seq<u8>>>
    decreases forest,
{
    if forest.len() == 0 {
        Seq::empty()
    } else {
        project_forest(forest.drop_last(), base) + forest.last().project(
            base.push(forest.last().name),
        )
    }
}

impl Tree {
    /// The image paths of the tree that lies at `base`, depth first: the
    /// directory's own images, then each subdirectory's projection in turn.
    pub open spec fn project(self, base: Seq<Seq<u8>>) -> Seq<Seq<Seq<u8>>>
        decreases self,
    {
        own_paths(self.images, base) + project_forest(self.children, base)
    }

    /// Where the images of the subdirectory with index `k` start in the projection.
    pub open spec fn child_offset(self, k: int) -> int {
        (self.images.len() + count_forest(self.children.subrange(0, k))) as int
    }
}

/// The projection of a forest holds as many paths as the forest holds images.
pub proof fn lemma_project_forest_len(forest: Seq<Tree>, base: Seq<Seq<u8>>)
    ensures
        project_forest(forest, base).len() == count_forest(forest),
    decreases forest,
{
    if forest.len() > 0 {
        lemma_project_forest_len(forest.drop_last(), base);
        lemma_project_len(forest.last(), base.push(forest.last().name));
    }
}

/// The projection holds as many paths as the tree holds images: every image of the
/// tree is projected, and none twice.
pub proof fn lemma_project_len(tree: Tree, base: Seq<Seq<u8>>)
    ensures
        tree.project(base).len() == tree.count_images(),
    decreases tree,
{
    lemma_project_forest_len(tree.children, base);
}

/// The projection of the first trees of a forest is the start of the forest's
/// projection.
pub proof fn lemma_project_forest_prefix(forest: Seq<Tree>, base: Seq<Seq<u8>>, n: int)
    requires
        0 <= n <= forest.len(),
    ensures
        project_forest(forest.subrange(0, n), base).len() <= project_forest(forest, base).len(),
        project_forest(forest, base).subrange(
            0,
            project_forest(forest.subrange(0, n), base).len() as int,
        ) == project_forest(forest.subrange(0, n), base),
    decreases forest.len(),
{
    if n == forest.len() {
        assert(forest.subrange(0, n) =~= forest);
    } else {
        lemma_project_forest_prefix(forest.drop_last(), base, n);
        assert(forest.drop_last().subrange(0, n) =~= forest.subrange(0, n));
    }
}

/// In the projection, the images of the subdirectory with index `k` stand together,
/// in the order of that subdirectory's own projection, from `child_offset(k)` on.
pub proof fn lemma_child_block(tree: Tree, base: Seq<Seq<u8>>, k: int)
    requires
        0 <= k < tree.children.len(),
    ensures
        tree.child_offset(k) + tree.children[k].count_images() <= tree.project(base).len(),
        tree.project(base).subrange(
            tree.child_offset(k),
            tree.child_offset(k) + tree.children[k].count_images(),
        ) == tree.children[k].project(base.push(tree.children[k].name)),
{
    let child = tree.children[k];
    let upto = tree.children.subrange(0, k + 1);
    let before = tree.children.subrange(0, k);
    assert(upto.drop_last() =~= before);
    lemma_project_forest_prefix(tree.children, base, k + 1);
    lemma_project_forest_len(before, base);
    lemma_project_len(child, base.push(child.name));
    let lo = project_forest(before, base).len() as int;
    let hi = project_forest(upto, base).len() as int;
    assert(project_forest(upto, base).subrange(lo, hi) =~= child.project(base.push(child.name)));
}

/// The directory reached from `tree` by going, for each index of `route` in turn,
/// into the subdirectory with that index.
pub open spec fn descend(tree: Tree, route: Seq<int>) -> Tree
    decreases route.len(),
{
    if route.len() == 0 {
        tree
    } else {
        descend(tree.children[route[0]], route.drop_first())
    }
}

/// Each index of `route` is the index of a subdirectory of the directory that the
/// indices before it lead to.
pub open spec fn is_route(tree: Tree, route: Seq<int>) -> bool
    decreases route.len(),
{
    route.len() == 0 || (0 <= route[0] < tree.children.len() && is_route(
        tree.children[route[0]],
        route.drop_first(),
    ))
}

/// The path of the directory that `route` leads to, where `tree` lies at `base`.
pub open spec fn descend_base(tree: Tree, base: Seq<Seq<u8>>, route: Seq<int>) -> Seq<Seq<u8>>
    decreases route.len(),
{
    if route.len() == 0 {
        base
    } else {
        descend_base(
            tree.children[route[0]],
            base.push(tree.children[route[0]].name),
            route.drop_first(),
        )
    }
}

/// Where the images of the directory that `route` leads to start in the projection
/// of `tree`.
pub open spec fn descend_offset(tree: Tree, route: Seq<int>) -> int
    decreases route.len(),
{
    if route.len() == 0 {
        0
    } else {
        tree.child_offset(route[0]) + descend_offset(tree.children[route[0]], route.drop_first())
    }
}

/// In the projection of a tree, the images of any one directory of the tree, with
/// all that lies below it, stand together and in the order of that directory's own
/// projection.
pub proof fn lemma_directory_block(tree: Tree, base: Seq<Seq<u8>>, route: Seq<int>)
    requires
        is_route(tree, route),
    ensures
        0 <= descend_offset(tree, route),
        descend_offset(tree, route) + descend(tree, route).count_images() <= tree.project(
            base,
        ).len(),
        tree.project(base).subrange(
            descend_offset(tree, route),
            descend_offset(tree, route) + descend(tree, route).count_images(),
        ) == descend(tree, route).project(descend_base(tree, base, route)),
    decreases route.len(),
{
    lemma_project_len(tree, base);
    if route.len() > 0 {
        let k = route[0];
        let child = tree.children[k];
        let below = base.push(child.name);
        lemma_directory_block(child, below, route.drop_first());
        lemma_child_block(tree, base, k);
        lemma_project_len(child, below);
    }
}

/// Depth first, self first: in the projection of a tree, each image that lies
/// directly inside a directory of the tree stands before every image of each of
/// that directory's subdirectories. Where the images of the directory start at
/// `offset`, its own image with index `i` stands at `offset + i`, and the positions
/// from `offset` plus the number of its own images on, up to the end of its block,
/// hold the projection of its subdirectories.
pub proof fn lemma_self_first(tree: Tree, base: Seq<Seq<u8>>, route: Seq<int>, i: int, j: int)
    requires
        is_route(tree, route),
        0 <= i < descend(tree, route).images.len(),
        descend(tree, route).images.len() <= j < descend(tree, route).count_images(),
    ensures
        0 <= descend_offset(tree, route) + i < descend_offset(tree, route) + j < tree.project(
            base,
        ).len(),
        tree.project(base)[descend_offset(tree, route) + i] == descend_base(tree, base, route).push(
            descend(tree, route).images[i],
        ),
        tree.project(base)[descend_offset(tree, route) + j] == project_forest(
            descend(tree, route).children,
            descend_base(tree, base, route),
        )[j - descend(tree, route).images.len()],
{
    lemma_directory_block(tree, base, route);
    let directory = descend(tree, route);
    let offset = descend_offset(tree, route);
    let block = tree.project(base).subrange(offset, offset + directory.count_images());
    let own = own_paths(directory.images, descend_base(tree, base, route));
    let below = project_forest(directory.children, descend_base(tree, base, route));
    lemma_project_forest_len(directory.children, descend_base(tree, base, route));
    assert(block[i] == tree.project(base)[offset + i]);
    assert(block[j] == below[j - own.len()]);
}

/// Every path of a forest's projection lies under `base`, at least two components
/// deeper.
pub proof fn lemma_forest_under_base(forest: Seq<Tree>, base: Seq<Seq<u8>>, i: int)
    requires
        0 <= i < project_forest(forest, base).len(),
    ensures
        starts_with(project_forest(forest, base)[i], base),
        project_forest(forest, base)[i].len() > base.len() + 1,
    decreases forest,
{
    let front = project_forest(forest.drop_last(), base);
    if i < front.len() {
        lemma_forest_under_base(forest.drop_last(), base, i);
    } else {
        let below = base.push(forest.last().name);
        let path = forest.last().project(below)[i - front.len()];
        lemma_under_base(forest.last(), below, i - front.len());
        assert(path.subrange(0, base.len() as int) =~= path.subrange(0, below.len() as int).subrange(
            0,
            base.len() as int,
        ));
        assert(below.subrange(0, base.len() as int) =~= base);
    }
}

/// Every path of the projection lies under `base`, and deeper: it is the path of
/// a file in the directory at `base` or below it.
pub proof fn lemma_under_base(tree: Tree, base: Seq<Seq<u8>>, i: int)
    requires
        0 <= i < tree.project(base).len(),
    ensures
        starts_with(tree.project(base)[i], base),
        tree.project(base)[i].len() > base.len(),
    decreases tree,
{
    if i < tree.images.len() {
        let path = base.push(tree.images[i]);
        assert(path.subrange(0, base.len() as int) =~= base);
    } else {
        lemma_forest_under_base(tree.children, base, i - tree.images.len());
    }
}

impl DirectoryNode {
    /// The image paths of the directory that lies at `base_path`, depth first: its
    /// own images in stored order, then those of each subdirectory in stored order.
    pub fn get_images_depth_first_current_priority(&self, base_path: &FilePath) -> (all_images:
        Vec<FilePath>)
        ensures
            paths_view(all_images@) == self@.project(base_path@),
        decreases self,
    {
        let mut all_images: Vec<FilePath> = Vec::new();
        let ghost tree = self@;
        let ghost base = base_path@;
        let mut i: usize = 0;
        while i < self.images.len()
            invariant
                i <= self.images.len(),
                tree == self@,
                base == base_path@,
                paths_view(all_images@) == own_paths(tree.images.subrange(0, i as int), base),
            decreases self.images.len() - i,
        {
            let image_path = base_path.join(&self.images[i]);
            proof {
                lemma_paths_push(all_images@, image_path);
            }
            all_images.push(image_path);
            i += 1;
        }
        let mut k: usize = 0;
        while k < self.children.len()
            invariant
                k <= self.children.len(),
                tree == self@,
                base == base_path@,
                tree.children == nodes_view(self.children@),
                paths_view(all_images@) == own_paths(tree.images, base) + project_forest(
                    tree.children.subrange(0, k as int),
                    base,
                ),
            decreases self.children.len() - k,
        {
            let child = &self.children[k];
            let child_path = base_path.join(&child.name);
            let mut below = child.get_images_depth_first_current_priority(&child_path);
            let ghost before = all_images@;
            let ghost added = below@;
            all_images.append(&mut below);
            proof {
                assert(tree.children.subrange(0, k + 1).drop_last() =~= tree.children.subrange(
                    0,
                    k as int,
                ));
                assert(paths_view(before + added) =~= paths_view(before) + paths_view(added));
            }
            k += 1;
        }
        assert(tree.children.subrange(0, k as int) =~= tree.children);
        all_images
    }
}

} // verus!
