//! Bones, the skeleton that owns them, and the matrices derived from it.

use crate::hierarchy::{
    acyclic, ancestor, height, is_ancestor, lemma_ended_stays_ended, lemma_push_root_acyclic,
    lemma_relink_acyclic, lemma_walk_from_parent, lemma_walk_reaches_root, links_in_range, rooted,
    step_up,
};
use crate::indices::{
    contains_index, lemma_without_contains, lemma_without_no_duplicates, remove_all, without,
};
use crate::matrix::{
    identity4, identity_rotation, mat4_bits, mat4_compose, mat4_from_scale_rotation_translation,
    mat4_identity, mat4_mul, mat4_product, mat4_slice_bytes, one3, quat_bits, quat_identity, vec3_bits, vec3_one,
    vec3_zero, zero3,
};
use vstd::prelude::*;
use vstd::set_lib::{lemma_int_range, lemma_len_subset, set_int_range};

verus! {

/// A single bone: a name, its links into the hierarchy, its local transform
/// and the inverse bind matrix used for skinning.
#[derive(Debug, Clone)]
pub struct Bone {
    /// Bone name.
    pub name: String,
    /// Index of the parent bone; `None` for a root.
    pub parent: Option<usize>,
    /// Indices of the child bones, in the order they were attached.
    pub children: Vec<usize>,
    /// Local translation.
    pub translation: glam::Vec3,
    /// Local rotation.
    pub rotation: glam::Quat,
    /// Local scale.
    pub scale: glam::Vec3,
    /// Inverse bind matrix.
    pub inverse_bind_matrix: glam::Mat4,
}

impl Bone {
    /// The entries of this bone's local matrix: scale, then rotation, then
    /// translation.
    pub open spec fn local(&self) -> Seq<u32> {
        mat4_compose(vec3_bits(self.scale), quat_bits(self.rotation), vec3_bits(self.translation))
    }

    /// The bone has no parent and no children.
    pub open spec fn detached(&self) -> bool {
        self.parent is None && self.children@.len() == 0
    }

    /// A detached bone with the identity transform.
    pub fn new(name: &str) -> (bone: Bone)
        ensures
            bone.name@ == name@,
            bone.detached(),
            vec3_bits(bone.translation) == zero3(),
            quat_bits(bone.rotation) == identity_rotation(),
            vec3_bits(bone.scale) == one3(),
            mat4_bits(bone.inverse_bind_matrix) == identity4(),
    {
        Bone {
            name: name.to_owned(),
            parent: None,
            children: Vec::new(),
            translation: vec3_zero(),
            rotation: quat_identity(),
            scale: vec3_one(),
            inverse_bind_matrix: mat4_identity(),
        }
    }

    /// The local transform matrix of this bone.
    pub fn local_matrix(&self) -> (m: glam::Mat4)
        ensures
            mat4_bits(m) == self.local(),
    {
        mat4_from_scale_rotation_translation(self.scale, self.rotation, self.translation)
    }
}

impl Default for Bone {
    /// A detached bone called "bone" with the identity transform.
    fn default() -> (bone: Bone)
        ensures
            bone.name@ == "bone"@,
            bone.detached(),
            vec3_bits(bone.translation) == zero3(),
            quat_bits(bone.rotation) == identity_rotation(),
            vec3_bits(bone.scale) == one3(),
            mat4_bits(bone.inverse_bind_matrix) == identity4(),
    {
        Bone::new("bone")
    }
}

/// A hierarchy of bones. A bone is known by its position in `bones`, which
/// never changes: bones are only ever appended.
#[derive(Debug, Clone)]
pub struct Skeleton {
    /// All bones.
    pub bones: Vec<Bone>,
    /// Indices of the bones without a parent.
    pub roots: Vec<usize>,
}

impl Skeleton {
    /// The parent link of every bone, in bone order.
    pub open spec fn parents(&self) -> Seq<Option<usize>> {
        Seq::new(self.bones@.len(), |i: int| self.bones@[i].parent)
    }

    /// Parent and child links agree, every link points at a bone, `roots`
    /// lists exactly the parentless bones, nothing is listed twice, and no
    /// bone is its own ancestor.
    pub open spec fn wf(&self) -> bool {
        &&& forall|i: int|
            0 <= i < self.bones@.len() ==> (#[trigger] self.bones@[i].parent matches Some(p)
                ==> p < self.bones@.len() && self.bones@[p as int].children@.contains(i as usize))
        &&& forall|p: int, j: int|
            0 <= p < self.bones@.len() && 0 <= j < self.bones@[p].children@.len() ==> {
                let c = #[trigger] self.bones@[p].children@[j];
                c < self.bones@.len() && self.bones@[c as int].parent == Some(p as usize)
            }
        &&& forall|p: int| 0 <= p < self.bones@.len() ==> (#[trigger] self.bones@[p].children@).no_duplicates()
        &&& forall|i: int|
            0 <= i < self.bones@.len() ==> (#[trigger] self.bones@[i].parent is None
                <==> self.roots@.contains(i as usize))
        &&& forall|j: int| 0 <= j < self.roots@.len() ==> #[trigger] self.roots@[j] < self.bones@.len()
        &&& self.roots@.no_duplicates()
        &&& acyclic(self.parents())
    }

    /// In a well-formed skeleton every parent link points at a bone.
    pub proof fn lemma_links_in_range(&self)
        requires
            self.wf(),
        ensures
            links_in_range(self.parents()),
    {
        assert forall|j: int| 0 <= j < self.parents().len() && self.parents()[j] is Some implies self.parents()[j]->0
            < self.parents().len() by {
            assert(self.bones@[j].parent is Some);
        }
    }

    /// An empty skeleton.
    pub fn new() -> (s: Skeleton)
        ensures
            s.bones@.len() == 0,
            s.roots@.len() == 0,
            s.wf(),
    {
        Skeleton { bones: Vec::new(), roots: Vec::new() }
    }

    /// Appends a bone and returns its index. A bone without a parent is also
    /// entered in the list of roots.
    pub fn add_bone(&mut self, bone: Bone) -> (index: usize)
        ensures
            index == old(self).bones@.len(),
            final(self).bones@ == old(self).bones@.push(bone),
            final(self).roots@ == if bone.parent is None {
                old(self).roots@.push(index)
            } else {
                old(self).roots@
            },
            old(self).wf() && bone.detached() ==> final(self).wf(),
    {
        let index = self.bones.len();
        if bone.parent.is_none() {
            self.roots.push(index);
        }
        self.bones.push(bone);
        proof {
            if old(self).wf() && bone.detached() {
                old(self).lemma_links_in_range();
                assert(self.parents() =~= old(self).parents().push(None));
                lemma_push_root_acyclic(old(self).parents());
                assert forall|i: int| 0 <= i < self.bones@.len() implies (
                #[trigger] self.bones@[i].parent is None <==> self.roots@.contains(i as usize)) by {
                    if i < index {
                        if old(self).roots@.contains(i as usize) {
                            let j = choose|j: int|
                                0 <= j < old(self).roots@.len() && old(self).roots@[j] == i as usize;
                            assert(self.roots@[j] == i as usize);
                        }
                    } else {
                        assert(self.roots@[old(self).roots@.len() as int] == index);
                    }
                }
                assert forall|i: int| 0 <= i < self.bones@.len() implies (
                #[trigger] self.bones@[i].parent matches Some(p) ==> p < self.bones@.len()
                    && self.bones@[p as int].children@.contains(i as usize)) by {
                    if i < index {
                        assert(self.bones@[i] == old(self).bones@[i]);
                    }
                }
                assert forall|p: int, j: int|
                    0 <= p < self.bones@.len() && 0 <= j < self.bones@[p].children@.len() implies ({
                    let c = #[trigger] self.bones@[p].children@[j];
                    c < self.bones@.len() && self.bones@[c as int].parent == Some(p as usize)
                }) by {
                    assert(self.bones@[p] == old(self).bones@[p]);
                    let c = old(self).bones@[p].children@[j];
                    assert(c < index);
                    assert(self.bones@[c as int] == old(self).bones@[c as int]);
                }
                assert forall|p: int| 0 <= p < self.bones@.len() implies (
                #[trigger] self.bones@[p].children@).no_duplicates() by {
                    if p < index {
                        assert(self.bones@[p] == old(self).bones@[p]);
                    }
                }
            }
        }
        index
    }

    /// Whether `set_parent(child, parent)` changes anything: both are bones,
    /// they differ, `child` is not above `parent`, and `child` is not already
    /// a child of `parent`.
    pub open spec fn accepts_parent(&self, child: usize, parent: usize) -> bool {
        &&& child != parent
        &&& child < self.bones@.len()
        &&& parent < self.bones@.len()
        &&& !is_ancestor(self.parents(), child as int, parent as int)
        &&& self.bones@[child as int].parent != Some(parent)
    }

    /// `after` is this skeleton with `child` moved under `parent`: `child`
    /// has left the children of its former parent, or the roots if it had
    /// none, and stands last among the children of `parent`. Nothing else
    /// has changed.
    pub open spec fn relinked(&self, after: Skeleton, child: usize, parent: usize) -> bool {
        &&& after.bones@.len() == self.bones@.len()
        &&& forall|i: int|
            0 <= i < self.bones@.len() ==> {
                let a = #[trigger] after.bones@[i];
                let b = self.bones@[i];
                &&& a.name == b.name
                &&& a.translation == b.translation
                &&& a.rotation == b.rotation
                &&& a.scale == b.scale
                &&& a.inverse_bind_matrix == b.inverse_bind_matrix
                &&& a.parent == if i == child {
                    Some(parent)
                } else {
                    b.parent
                }
                &&& a.children@ == if i == parent {
                    b.children@.push(child)
                } else if self.bones@[child as int].parent == Some(i as usize) {
                    without(b.children@, child)
                } else {
                    b.children@
                }
            }
        &&& after.roots@ == if self.bones@[child as int].parent is None {
            without(self.roots@, child)
        } else {
            self.roots@
        }
    }

    /// Moving a bone as `relinked` describes keeps a skeleton well formed.
    pub proof fn lemma_relinked_wf(&self, after: Skeleton, child: usize, parent: usize)
        requires
            self.wf(),
            self.accepts_parent(child, parent),
            self.relinked(after, child, parent),
        ensures
            after.wf(),
    {
        let n = self.bones@.len();
        let former = self.bones@[child as int].parent;
        assert(n == self.bones.len());
        self.lemma_links_in_range();
        lemma_relink_acyclic(self.parents(), child, parent);
        assert(after.parents() =~= self.parents().update(child as int, Some(parent)));
        lemma_without_contains(self.roots@, child);
        lemma_without_no_duplicates(self.roots@, child);
        assert forall|p: int| 0 <= p < n implies (#[trigger] after.bones@[p].children@).no_duplicates()
            && (forall|e: usize|
            after.bones@[p].children@.contains(e) <==> (self.bones@[p].children@.contains(e) && !(
            former == Some(p as usize) && e == child)) || (p == parent && e == child)) by {
            let before = self.bones@[p].children@;
            assert(before.no_duplicates());
            lemma_without_contains(before, child);
            lemma_without_no_duplicates(before, child);
            if before.contains(child) {
                let j = choose|j: int| 0 <= j < before.len() && before[j] == child;
                assert(self.bones@[p].children@[j] == child);
                assert(former == Some(p as usize));
            }
            if p == parent {
                assert forall|e: usize| before.push(child).contains(e) <==> before.contains(e) || e
                    == child by {
                    if before.contains(e) {
                        let j = choose|j: int| 0 <= j < before.len() && before[j] == e;
                        assert(before.push(child)[j] == e);
                    }
                    if e == child {
                        assert(before.push(child)[before.len() as int] == e);
                    }
                }
            }
        }
        assert forall|i: int| 0 <= i < n implies (#[trigger] after.bones@[i].parent matches Some(p)
            ==> p < n && after.bones@[p as int].children@.contains(i as usize)) by {
            if i != child {
                if let Some(p) = self.bones@[i].parent {
                    assert(self.bones@[p as int].children@.contains(i as usize));
                    assert(after.bones@[p as int].children@.contains(i as usize));
                }
            } else {
                assert(after.bones@[parent as int].children@.contains(child));
            }
        }
        assert forall|p: int, j: int| 0 <= p < n && 0 <= j < after.bones@[p].children@.len() implies ({
            let c = #[trigger] after.bones@[p].children@[j];
            c < n && after.bones@[c as int].parent == Some(p as usize)
        }) by {
            let c = after.bones@[p].children@[j];
            assert(after.bones@[p].children@.contains(c));
            if p == parent && c == child {
            } else {
                assert(self.bones@[p].children@.contains(c));
                let at = choose|at: int|
                    0 <= at < self.bones@[p].children@.len() && self.bones@[p].children@[at] == c;
                assert(self.bones@[p].children@[at] == c);
            }
        }
        assert forall|i: int| 0 <= i < n implies (#[trigger] after.bones@[i].parent is None
            <==> after.roots@.contains(i as usize)) by {
            assert(self.bones@[i].parent is None <==> self.roots@.contains(i as usize));
        }
        assert forall|j: int| 0 <= j < after.roots@.len() implies #[trigger] after.roots@[j] < n by {
            assert(after.roots@.contains(after.roots@[j]));
            assert(self.roots@.contains(after.roots@[j]));
            let at = choose|at: int| 0 <= at < self.roots@.len() && self.roots@[at] == after.roots@[j];
            assert(self.roots@[at] < n);
        }
    }

    /// Makes `parent` the parent of `child`. The call changes nothing when the
    /// two are the same bone, when either is not a bone, when `child` is
    /// already a child of `parent`, or when `child` lies above `parent`, so
    /// that the link would close a cycle.
    pub fn set_parent(&mut self, child: usize, parent: usize)
        requires
            old(self).wf(),
        ensures
            final(self).wf(),
            !old(self).accepts_parent(child, parent) ==> *final(self) == *old(self),
            old(self).accepts_parent(child, parent) ==> old(self).relinked(*final(self), child, parent),
    {
        if child == parent || child >= self.bones.len() || parent >= self.bones.len() {
            return ;
        }
        let ghost links = self.parents();
        proof {
            self.lemma_links_in_range();
            assert(rooted(links, parent as int));
        }
        let ghost reach = choose|k: nat| ancestor(links, parent as int, k) is None;
        let ghost mut steps: nat = 0;
        let mut curr = parent;
        loop
            invariant
                *self == *old(self),
                self.wf(),
                links == self.parents(),
                links_in_range(links),
                curr < self.bones@.len(),
                ancestor(links, parent as int, steps) == Some(curr as int),
                ancestor(links, parent as int, reach) is None,
                forall|m: nat| 1 <= m <= steps ==> ancestor(links, parent as int, m) != Some(child as int),
            ensures
                !is_ancestor(links, child as int, parent as int),
            decreases reach - steps,
        {
            proof {
                if steps >= reach {
                    lemma_ended_stays_ended(links, parent as int, reach, steps);
                }
                assert(ancestor(links, parent as int, steps + 1) == step_up(
                    links,
                    ancestor(links, parent as int, steps),
                ));
            }
            match self.bones[curr].parent {
                Some(p) => {
                    if p == child {
                        proof {
                            assert(is_ancestor(links, child as int, parent as int));
                        }
                        return ;
                    }
                    curr = p;
                    proof {
                        steps = steps + 1;
                    }
                },
                None => {
                    proof {
                        assert forall|m: nat| m >= 1 implies ancestor(links, parent as int, m) != Some(
                            child as int,
                        ) by {
                            if m > steps {
                                lemma_ended_stays_ended(links, parent as int, steps + 1, m);
                            }
                        }
                    }
                    break ;
                },
            }
        }
        match self.bones[child].parent {
            Some(former) => {
                if former != parent {
                    remove_all(&mut self.bones[former].children, child);
                } else {
                    return ;
                }
            },
            None => {
                remove_all(&mut self.roots, child);
            },
        }
        self.bones[child].parent = Some(parent);
        proof {
            let before = old(self).bones@[parent as int].children@;
            if before.contains(child) {
                let j = choose|j: int| 0 <= j < before.len() && before[j] == child;
                assert(old(self).bones@[parent as int].children@[j] == child);
            }
            lemma_without_contains(before, child);
        }
        if !contains_index(&self.bones[parent].children, child) {
            self.bones[parent].children.push(child);
        }
        proof {
            old(self).lemma_relinked_wf(*self, child, parent);
        }
    }

    /// The entries of the world matrix of bone `i`, where the walk toward the
    /// root is followed for at most `fuel` steps.
    pub open spec fn world_within(&self, i: int, fuel: nat) -> Seq<u32>
        decreases fuel,
    {
        match self.bones@[i].parent {
            Some(p) if fuel > 0 => mat4_product(
                self.world_within(p as int, (fuel - 1) as nat),
                self.bones@[i].local(),
            ),
            _ => mat4_product(identity4(), self.bones@[i].local()),
        }
    }

    /// The entries of the world matrix of bone `i`: the product of the local
    /// matrices on the path from its root down to `i`, starting from the
    /// identity. `lemma_world_unfolds` states this one step at a time.
    pub open spec fn world(&self, i: int) -> Seq<u32> {
        self.world_within(i, height(self.parents(), i))
    }

    /// The entries of the matrix that the local matrix of bone `i` is
    /// multiplied onto: the world matrix of its parent, or the identity for a
    /// root.
    pub open spec fn world_above(&self, i: int) -> Seq<u32> {
        match self.bones@[i].parent {
            Some(p) => self.world(p as int),
            None => identity4(),
        }
    }

    /// `matrices` holds, for every bone and in bone order, its world matrix.
    pub open spec fn is_world_matrices(&self, matrices: Seq<glam::Mat4>) -> bool {
        &&& matrices.len() == self.bones@.len()
        &&& forall|i: int|
            0 <= i < self.bones@.len() ==> mat4_bits(#[trigger] matrices[i]) == self.world(i)
    }

    /// `matrices` holds, for every bone and in bone order, its world matrix
    /// times its inverse bind matrix.
    pub open spec fn is_skinning_matrices(&self, matrices: Seq<glam::Mat4>) -> bool {
        &&& matrices.len() == self.bones@.len()
        &&& forall|i: int|
            0 <= i < self.bones@.len() ==> mat4_bits(#[trigger] matrices[i]) == mat4_product(
                self.world(i),
                mat4_bits(self.bones@[i].inverse_bind_matrix),
            )
    }

    /// Enough fuel is as good as more: once the walk from `i` has ended
    /// within the fuel, the result no longer depends on it.
    proof fn lemma_world_fuel(&self, i: int, a: nat, b: nat)
        requires
            self.wf(),
            0 <= i < self.bones@.len(),
            ancestor(self.parents(), i, a + 1) is None,
            ancestor(self.parents(), i, b + 1) is None,
        ensures
            self.world_within(i, a) == self.world_within(i, b),
        decreases a,
    {
        let links = self.parents();
        match self.bones@[i].parent {
            Some(p) => {
                lemma_walk_from_parent(links, i, a);
                lemma_walk_from_parent(links, i, b);
                assert(step_up(links, Some(i)) == Some(p as int));
                if a == 0 || b == 0 {
                    assert(ancestor(links, p as int, 0) is Some);
                } else {
                    self.lemma_world_fuel(p as int, (a - 1) as nat, (b - 1) as nat);
                }
            },
            None => {},
        }
    }

    /// The world matrix of a root is the identity times its local matrix; the
    /// world matrix of any other bone is the world matrix of its parent times
    /// its local matrix. Where a bone stands in `bones` plays no part.
    pub proof fn lemma_world_unfolds(&self, i: int)
        requires
            self.wf(),
            0 <= i < self.bones@.len(),
        ensures
            self.world(i) == mat4_product(self.world_above(i), self.bones@[i].local()),
    {
        let links = self.parents();
        assert(rooted(links, i));
        let h = height(links, i);
        match self.bones@[i].parent {
            Some(p) => {
                assert(rooted(links, p as int));
                let hp = height(links, p as int);
                assert(step_up(links, Some(i)) == Some(p as int));
                if h == 0 {
                    assert(ancestor(links, i, 0) is Some);
                } else {
                    lemma_walk_from_parent(links, i, (h - 1) as nat);
                    lemma_ended_stays_ended(links, p as int, (h - 1) as nat, h);
                    lemma_ended_stays_ended(links, p as int, hp, hp + 1);
                    self.lemma_world_fuel(p as int, (h - 1) as nat, hp);
                }
            },
            None => {},
        }
    }

    /// Bone `x` is waiting on the work list.
    spec fn waiting(stack: Seq<(usize, glam::Mat4)>, x: int) -> bool {
        exists|j: int| 0 <= j < stack.len() && #[trigger] stack[j].0 == x
    }

    /// Bone `i` or one of its ancestors is waiting on the work list.
    spec fn reachable(&self, stack: Seq<(usize, glam::Mat4)>, i: int) -> bool {
        exists|k: nat|
            (#[trigger] ancestor(self.parents(), i, k)) matches Some(a) && Self::waiting(stack, a)
    }

    /// What holds of the traversal between two steps: the bones in `done`
    /// have their world matrix; each waiting bone is not done, waits once,
    /// and carries the world matrix of its parent, which is done; and every
    /// bone that is not done has itself or an ancestor waiting.
    spec fn traversal(
        &self,
        done: Set<int>,
        stack: Seq<(usize, glam::Mat4)>,
        world: Seq<glam::Mat4>,
    ) -> bool {
        &&& world.len() == self.bones@.len()
        &&& done.subset_of(set_int_range(0, self.bones@.len() as int))
        &&& forall|i: int| done.contains(i) ==> mat4_bits(#[trigger] world[i]) == self.world(i)
        &&& forall|j: int|
            0 <= j < stack.len() ==> {
                let x = (#[trigger] stack[j]).0;
                &&& x < self.bones@.len()
                &&& !done.contains(x as int)
                &&& mat4_bits(stack[j].1) == self.world_above(x as int)
            }
        &&& forall|j: int, k: int|
            0 <= j < k < stack.len() ==> (#[trigger] stack[j]).0 != (#[trigger] stack[k]).0
        &&& forall|x: int| #[trigger]
            done.contains(x) ==> (self.bones@[x].parent matches Some(p) ==> done.contains(p as int))
        &&& forall|x: int|
            0 <= x < self.bones@.len() && #[trigger] Self::waiting(stack, x) ==> (
            self.bones@[x].parent matches Some(p) ==> done.contains(p as int))
        &&& forall|i: int|
            0 <= i < self.bones@.len() && !done.contains(i) ==> #[trigger] self.reachable(stack, i)
    }

    /// With every root waiting and nothing done, the traversal can start.
    proof fn lemma_traversal_starts(&self, stack: Seq<(usize, glam::Mat4)>, world: Seq<glam::Mat4>)
        requires
            self.wf(),
            world.len() == self.bones@.len(),
            stack.len() == self.roots@.len(),
            forall|j: int|
                0 <= j < stack.len() ==> (#[trigger] stack[j]).0 == self.roots@[j] && mat4_bits(
                    stack[j].1,
                ) == identity4(),
        ensures
            self.traversal(Set::empty(), stack, world),
    {
        let links = self.parents();
        self.lemma_links_in_range();
        assert(self.bones.len() == self.bones@.len());
        assert forall|j: int| 0 <= j < stack.len() implies ({
            let x = (#[trigger] stack[j]).0;
            &&& x < self.bones@.len()
            &&& mat4_bits(stack[j].1) == self.world_above(x as int)
        }) by {
            assert(self.roots@[j] < self.bones@.len());
            assert(self.roots@.contains(self.roots@[j]));
            assert(self.bones@[self.roots@[j] as int].parent is None);
        }
        assert forall|x: int|
            0 <= x < self.bones@.len() && #[trigger] Self::waiting(stack, x) implies self.bones@[x].parent is None by {
            let j = choose|j: int| 0 <= j < stack.len() && #[trigger] stack[j].0 == x;
            assert(self.roots@.contains(self.roots@[j]));
        }
        assert forall|i: int| 0 <= i < self.bones@.len() implies #[trigger] self.reachable(
            stack,
            i,
        ) by {
            assert(rooted(links, i));
            let k = choose|k: nat| ancestor(links, i, k) is None;
            let m = lemma_walk_reaches_root(links, i, k);
            let r = ancestor(links, i, m)->0;
            assert(self.bones@[r].parent is None);
            assert(self.roots@.contains(r as usize));
            let j = choose|j: int| 0 <= j < self.roots@.len() && self.roots@[j] == r as usize;
            assert(stack[j].0 == r);
            assert(Self::waiting(stack, r));
        }
    }

    /// One step of the traversal: the bone on top of the work list gets its
    /// world matrix, and its children take its place.
    proof fn lemma_traversal_steps(
        &self,
        done: Set<int>,
        stack: Seq<(usize, glam::Mat4)>,
        world: Seq<glam::Mat4>,
        placed: glam::Mat4,
        next: Seq<(usize, glam::Mat4)>,
    )
        requires
            self.wf(),
            self.traversal(done, stack, world),
            stack.len() > 0,
            mat4_bits(placed) == mat4_product(
                mat4_bits(stack.last().1),
                self.bones@[stack.last().0 as int].local(),
            ),
            next.len() == stack.len() - 1 + self.bones@[stack.last().0 as int].children@.len(),
            forall|j: int| 0 <= j < stack.len() - 1 ==> #[trigger] next[j] == stack[j],
            forall|j: int|
                stack.len() - 1 <= j < next.len() ==> #[trigger] next[j] == (
                    self.bones@[stack.last().0 as int].children@[j - (stack.len() - 1)],
                    placed,
                ),
        ensures
            self.traversal(
                done.insert(stack.last().0 as int),
                next,
                world.update(stack.last().0 as int, placed),
            ),
            !done.contains(stack.last().0 as int),
    {
        let links = self.parents();
        let top = stack.len() - 1;
        let a = stack.last().0 as int;
        let kids = self.bones@[a].children@;
        let after = done.insert(a);
        let filled = world.update(a, placed);
        assert(stack[top].0 == a);
        assert(Self::waiting(stack, a));
        self.lemma_world_unfolds(a);
        self.lemma_links_in_range();
        assert(self.bones.len() == self.bones@.len());
        assert(kids.no_duplicates());
        assert forall|x: int| #[trigger] Self::waiting(next, x) implies Self::waiting(stack, x) || (
        0 <= x < self.bones@.len() && self.bones@[x].parent == Some(a as usize)) by {
            let j = choose|j: int| 0 <= j < next.len() && #[trigger] next[j].0 == x;
            if j < top {
                assert(stack[j].0 == x);
            } else {
                assert(next[j].0 == kids[j - top]);
                assert(self.bones@[a].children@[j - top] == x);
            }
        }
        assert forall|j: int| 0 <= j < next.len() implies ({
            let x = (#[trigger] next[j]).0;
            &&& x < self.bones@.len()
            &&& !after.contains(x as int)
            &&& mat4_bits(next[j].1) == self.world_above(x as int)
        }) by {
            let x = next[j].0;
            assert(Self::waiting(next, x as int));
            if j < top {
                assert(next[j] == stack[j]);
                assert(stack[j].0 != stack[top].0);
            } else {
                assert(next[j] == (kids[j - top], placed));
                assert(self.bones@[a].children@[j - top] == x);
            }
        }
        assert forall|j: int, k: int| 0 <= j < k < next.len() implies (#[trigger] next[j]).0 != (
        #[trigger] next[k]).0 by {
            if k < top {
            } else {
                assert(next[k] == (kids[k - top], placed));
                assert(self.bones@[a].children@[k - top] == next[k].0);
                if j < top {
                    assert(next[j] == stack[j]);
                    if stack[j].0 == next[k].0 {
                        assert(Self::waiting(stack, next[k].0 as int));
                    }
                } else {
                    assert(next[j] == (kids[j - top], placed));
                }
            }
        }
        assert(after.subset_of(set_int_range(0, self.bones@.len() as int)));
        assert forall|i: int| after.contains(i) implies mat4_bits(#[trigger] filled[i]) == self.world(
            i,
        ) by {
            if i != a {
                assert(done.contains(i));
                assert(filled[i] == world[i]);
            }
        }
        assert forall|x: int| #[trigger] after.contains(x) implies (
        self.bones@[x].parent matches Some(p) ==> after.contains(p as int)) by {
            if x == a {
                assert(Self::waiting(stack, x));
            } else {
                assert(done.contains(x));
            }
        }
        assert forall|i: int|
            0 <= i < self.bones@.len() && !after.contains(i) implies #[trigger] self.reachable(
            next,
            i,
        ) by {
            assert(self.reachable(stack, i));
            let k = choose|k: nat|
                (#[trigger] ancestor(links, i, k)) matches Some(x) && Self::waiting(stack, x);
            let x = ancestor(links, i, k)->0;
            let j = choose|j: int| 0 <= j < stack.len() && #[trigger] stack[j].0 == x;
            if j < top {
                assert(next[j].0 == x);
                assert(Self::waiting(next, x));
            } else {
                assert(k > 0);
                let below = ancestor(links, i, (k - 1) as nat);
                assert(step_up(links, below) == Some(a));
                let c = below->0;
                assert(self.bones@[c].parent == Some(a as usize));
                assert(kids.contains(c as usize));
                let at = choose|at: int| 0 <= at < kids.len() && kids[at] == c as usize;
                assert(next[top + at] == (kids[at], placed));
                assert(Self::waiting(next, c));
            }
        }
    }

    /// Computes the world matrix of every bone, in bone order.
    ///
    /// The hierarchy is walked from the roots downward with an explicit work
    /// list, so the result does not depend on the order in which the bones
    /// were added.
    pub fn compute_world_matrices(&self) -> (world: Vec<glam::Mat4>)
        requires
            self.wf(),
        ensures
            self.is_world_matrices(world@),
    {
        let n = self.bones.len();
        let mut world: Vec<glam::Mat4> = Vec::with_capacity(n);
        while world.len() < n
            invariant
                world@.len() <= n,
            decreases n - world@.len(),
        {
            world.push(mat4_identity());
        }
        let mut stack: Vec<(usize, glam::Mat4)> = Vec::with_capacity(n);
        let mut r: usize = 0;
        while r < self.roots.len()
            invariant
                r <= self.roots@.len(),
                stack@.len() == r,
                forall|j: int|
                    0 <= j < r ==> (#[trigger] stack@[j]).0 == self.roots@[j] && mat4_bits(stack@[j].1)
                        == identity4(),
            decreases self.roots@.len() - r,
        {
            stack.push((self.roots[r], mat4_identity()));
            r += 1;
        }
        let ghost mut done: Set<int> = Set::empty();
        proof {
            self.lemma_traversal_starts(stack@, world@);
        }
        loop
            invariant
                self.wf(),
                n == self.bones@.len(),
                done.finite(),
                self.traversal(done, stack@, world@),
            ensures
                self.traversal(done, stack@, world@),
                stack@.len() == 0,
            decreases n - done.len(),
        {
            let ghost before = stack@;
            let ghost filled = world@;
            match stack.pop() {
                None => {
                    break ;
                },
                Some((index, parent_world)) => {
                    let bone = &self.bones[index];
                    let local = bone.local_matrix();
                    let placed = mat4_mul(&parent_world, &local);
                    world[index] = placed;
                    let mut c: usize = 0;
                    while c < bone.children.len()
                        invariant
                            c <= bone.children@.len(),
                            before.len() >= 1,
                            stack@.len() == before.len() - 1 + c,
                            forall|j: int| 0 <= j < before.len() - 1 ==> #[trigger] stack@[j] == before[j],
                            forall|j: int|
                                before.len() - 1 <= j < stack@.len() ==> #[trigger] stack@[j] == (
                                    bone.children@[j - (before.len() - 1)],
                                    placed,
                                ),
                        decreases bone.children@.len() - c,
                    {
                        stack.push((bone.children[c], placed));
                        c += 1;
                    }
                    proof {
                        assert(before.last() == (index, parent_world));
                        self.lemma_traversal_steps(done, before, filled, placed, stack@);
                        lemma_int_range(0, n as int);
                        let after = done.insert(index as int);
                        lemma_len_subset(after, set_int_range(0, n as int));
                        done = after;
                    }
                },
            }
        }
        proof {
            assert forall|i: int| 0 <= i < self.bones@.len() implies done.contains(i) by {
                if !done.contains(i) {
                    assert(self.reachable(stack@, i));
                }
            }
        }
        world
    }

    /// Computes the skinning matrix of every bone, in bone order: its world
    /// matrix times its inverse bind matrix.
    pub fn compute_skinning_matrices(&self) -> (joints: Vec<glam::Mat4>)
        requires
            self.wf(),
        ensures
            self.is_skinning_matrices(joints@),
    {
        let world = self.compute_world_matrices();
        let mut joints: Vec<glam::Mat4> = Vec::with_capacity(world.len());
        let mut i: usize = 0;
        while i < self.bones.len()
            invariant
                i <= self.bones@.len(),
                self.is_world_matrices(world@),
                joints@.len() == i,
                forall|j: int|
                    0 <= j < i ==> mat4_bits(#[trigger] joints@[j]) == mat4_product(
                        self.world(j),
                        mat4_bits(self.bones@[j].inverse_bind_matrix),
                    ),
            decreases self.bones@.len() - i,
        {
            joints.push(mat4_mul(&world[i], &self.bones[i].inverse_bind_matrix));
            i += 1;
        }
        joints
    }

    /// The number of bones.
    pub fn bone_count(&self) -> (n: usize)
        ensures
            n == self.bones@.len(),
    {
        self.bones.len()
    }

    /// The bone at `index`, if there is one.
    pub fn get(&self, index: usize) -> (bone: Option<&Bone>)
        ensures
            index < self.bones@.len() ==> bone == Some(&self.bones@[index as int]),
            index >= self.bones@.len() ==> bone is None,
    {
        if index < self.bones.len() {
            Some(&self.bones[index])
        } else {
            None
        }
    }

    /// Mutable access to the bone at `index`, if there is one.
    pub fn get_mut(&mut self, index: usize) -> (bone: Option<&mut Bone>)
        ensures
            index >= old(self).bones@.len() ==> bone is None && *final(self) == *old(self),
            index < old(self).bones@.len() ==> bone is Some && *bone->0 == old(self).bones@[index as int]
                && final(self).bones@ == old(self).bones@.update(index as int, *final(bone->0))
                && final(self).roots == old(self).roots,
    {
        if index < self.bones.len() {
            Some(&mut self.bones[index])
        } else {
            None
        }
    }
    /// The index of the first bone called `name`, if there is one.
    pub fn find_by_name(&self, name: &str) -> (found: Option<usize>)
        ensures
            match found {
                Some(i) => i < self.bones@.len() && self.bones@[i as int].name@ == name@ && forall|j: int|
                    0 <= j < i ==> (#[trigger] self.bones@[j]).name@ != name@,
                None => forall|j: int|
                    0 <= j < self.bones@.len() ==> (#[trigger] self.bones@[j]).name@ != name@,
            },
    {
        let wanted = name.to_owned();
        let mut i: usize = 0;
        while i < self.bones.len()
            invariant
                i <= self.bones@.len(),
                wanted@ == name@,
                forall|j: int| 0 <= j < i ==> (#[trigger] self.bones@[j]).name@ != name@,
            decreases self.bones@.len() - i,
        {
            if self.bones[i].name == wanted {
                return Some(i);
            }
            i += 1;
        }
        None
    }

    /// Determinism: whatever two computations of the world matrices of one
    /// skeleton return, they return the same entries.
    pub proof fn lemma_world_matrices_unique(&self, first: Seq<glam::Mat4>, second: Seq<glam::Mat4>)
        requires
            self.is_world_matrices(first),
            self.is_world_matrices(second),
        ensures
            first.len() == second.len(),
            forall|i: int| 0 <= i < first.len() ==> mat4_bits(first[i]) == mat4_bits(second[i]),
    {
    }

    /// Order independence: the world matrix of a child of a root is the
    /// identity times the local matrix of the root times the local matrix of
    /// the child, in whichever order the two bones were added. Two skeletons
    /// that hold such a pair with the same local matrices give the child the
    /// same world matrix, wherever the bones stand.
    pub proof fn lemma_world_ignores_order(
        &self,
        child: int,
        other: Skeleton,
        other_child: int,
    )
        requires
            self.wf(),
            other.wf(),
            0 <= child < self.bones@.len(),
            0 <= other_child < other.bones@.len(),
            self.bones@[child].parent matches Some(p) && self.bones@[p as int].parent is None,
            other.bones@[other_child].parent matches Some(q) && other.bones@[q as int].parent is None,
            self.bones@[child].local() == other.bones@[other_child].local(),
            self.bones@[self.bones@[child].parent->0 as int].local()
                == other.bones@[other.bones@[other_child].parent->0 as int].local(),
        ensures
            self.world(child) == mat4_product(
                mat4_product(identity4(), self.bones@[self.bones@[child].parent->0 as int].local()),
                self.bones@[child].local(),
            ),
            self.world(child) == other.world(other_child),
    {
        self.lemma_world_unfolds(child);
        self.lemma_world_unfolds(self.bones@[child].parent->0 as int);
        other.lemma_world_unfolds(other_child);
        other.lemma_world_unfolds(other.bones@[other_child].parent->0 as int);
    }

    /// Cycle rejection: once `child` has been moved under `parent`, the
    /// reverse link is not accepted, so `set_parent(parent, child)` leaves the
    /// skeleton as it is and `child` stays under `parent`.
    pub proof fn lemma_reverse_link_rejected(&self, after: Skeleton, child: usize, parent: usize)
        requires
            self.wf(),
            self.accepts_parent(child, parent),
            self.relinked(after, child, parent),
        ensures
            !after.accepts_parent(parent, child),
            after.bones@[child as int].parent == Some(parent),
    {
        let links = after.parents();
        assert(ancestor(links, child as int, 1) == step_up(links, ancestor(links, child as int, 0)));
        assert(is_ancestor(links, parent as int, child as int));
    }
}

impl Default for Skeleton {
    /// An empty skeleton.
    fn default() -> (s: Skeleton)
        ensures
            s.bones@.len() == 0,
            s.roots@.len() == 0,
            s.wf(),
    {
        Skeleton::new()
    }
}

/// The skinning matrices of a skeleton, ready to be handed to a renderer.
#[derive(Debug, Clone)]
pub struct SkinningData {
    /// One joint matrix for each bone, in bone order.
    pub joint_matrices: Vec<glam::Mat4>,
}

impl SkinningData {
    /// The skinning matrices of `skeleton`.
    pub fn from_skeleton(skeleton: &Skeleton) -> (data: SkinningData)
        requires
            skeleton.wf(),
        ensures
            skeleton.is_skinning_matrices(data.joint_matrices@),
    {
        SkinningData { joint_matrices: skeleton.compute_skinning_matrices() }
    }

    /// The matrices as one tightly packed run of bytes, sixty-four for each
    /// matrix.
    pub fn as_bytes(&self) -> (bytes: &[u8])
        ensures
            bytes@.len() == 64 * self.joint_matrices@.len(),
    {
        mat4_slice_bytes(self.joint_matrices.as_slice())
    }
}

} // verus!
