use glam::{Mat4, Quat, Vec3};
use skelanim::skeleton::{Bone, Skeleton, SkinningData};

#[test]
fn test_skeleton_hierarchy() {
    let mut skeleton = Skeleton::new();

    let root = skeleton.add_bone(Bone::new("root"));
    let child = skeleton.add_bone(Bone::new("child"));

    skeleton.set_parent(child, root);

    assert_eq!(skeleton.bone_count(), 2);
    assert_eq!(skeleton.roots.len(), 1);
    assert_eq!(skeleton.bones[child].parent, Some(root));
    assert!(skeleton.bones[root].children.contains(&child));
}

#[test]
fn test_world_matrix_computation() {
    let mut skeleton = Skeleton::new();

    let mut root = Bone::new("root");
    root.translation = Vec3::new(1.0, 0.0, 0.0);
    skeleton.add_bone(root);

    let mut child = Bone::new("child");
    child.translation = Vec3::new(2.0, 0.0, 0.0);
    let child_idx = skeleton.add_bone(child);
    skeleton.set_parent(child_idx, 0);

    let world_matrices = skeleton.compute_world_matrices();

    // Child world position should be parent + child local
    let child_pos = world_matrices[child_idx].w_axis.truncate();
    assert!((child_pos.x - 3.0).abs() < 0.01);
}

#[test]
fn test_find_by_name() {
    let mut skeleton = Skeleton::new();
    skeleton.add_bone(Bone::new("hip"));
    skeleton.add_bone(Bone::new("spine"));
    skeleton.add_bone(Bone::new("head"));

    assert_eq!(skeleton.find_by_name("spine"), Some(1));
    assert_eq!(skeleton.find_by_name("head"), Some(2));
    assert_eq!(skeleton.find_by_name("missing"), None);
}

#[test]
fn test_out_of_order_bones() {
    let mut skeleton = Skeleton::new();

    // Add child first (index 0)
    let child = Bone::new("child");
    let child_idx = skeleton.add_bone(child);

    // Add parent second (index 1)
    let mut parent = Bone::new("parent");
    parent.translation = Vec3::new(10.0, 0.0, 0.0);
    let parent_idx = skeleton.add_bone(parent);

    // Set parent: Child -> Parent
    // This makes Child (0) depend on Parent (1)
    skeleton.set_parent(child_idx, parent_idx);

    let world_matrices = skeleton.compute_world_matrices();
    let child_pos = world_matrices[child_idx].w_axis.truncate();

    // Should be at 10.0 (Parent pos) + 0.0 (Child local)
    assert!((child_pos.x - 10.0).abs() < 0.001);
}

#[test]
fn new_bone_is_detached_with_identity_transform() {
    let bone = Bone::new("b");
    assert_eq!(bone.name, "b");
    assert_eq!(bone.parent, None);
    assert!(bone.children.is_empty());
    assert_eq!(bone.translation, Vec3::ZERO);
    assert_eq!(bone.rotation, Quat::IDENTITY);
    assert_eq!(bone.scale, Vec3::ONE);
    assert_eq!(bone.inverse_bind_matrix, Mat4::IDENTITY);
    assert_eq!(bone.local_matrix(), Mat4::IDENTITY);
    assert_eq!(Bone::default().name, "bone");
}

#[test]
fn local_matrix_applies_scale_rotation_translation() {
    let mut bone = Bone::new("b");
    bone.translation = Vec3::new(1.0, 2.0, 3.0);
    bone.scale = Vec3::new(2.0, 2.0, 2.0);
    let m = bone.local_matrix();
    assert_eq!(m.w_axis.truncate(), Vec3::new(1.0, 2.0, 3.0));
    assert_eq!(m.x_axis.x, 2.0);
    assert_eq!(m.y_axis.y, 2.0);
    assert_eq!(m.z_axis.z, 2.0);
}

#[test]
fn child_world_position_is_sum_in_either_order() {
    // Root first.
    let mut first = Skeleton::new();
    let mut root = Bone::new("root");
    root.translation = Vec3::new(1.0, 0.0, 0.0);
    let r = first.add_bone(root);
    let mut child = Bone::new("child");
    child.translation = Vec3::new(2.0, 0.0, 0.0);
    let c = first.add_bone(child);
    first.set_parent(c, r);
    let a = first.compute_world_matrices()[c];

    // Child first.
    let mut second = Skeleton::new();
    let mut child = Bone::new("child");
    child.translation = Vec3::new(2.0, 0.0, 0.0);
    let c2 = second.add_bone(child);
    let mut root = Bone::new("root");
    root.translation = Vec3::new(1.0, 0.0, 0.0);
    let r2 = second.add_bone(root);
    second.set_parent(c2, r2);
    let b = second.compute_world_matrices()[c2];

    assert_eq!(a, b);
    let pos = a.w_axis.truncate();
    assert!((pos.x - 3.0).abs() < 0.001);
    assert!(pos.y.abs() < 0.001);
    assert!(pos.z.abs() < 0.001);
}

#[test]
fn world_matrices_are_the_same_on_every_call() {
    let mut skeleton = Skeleton::new();
    let mut root = Bone::new("root");
    root.translation = Vec3::new(0.5, 1.5, -2.0);
    root.rotation = Quat::from_rotation_y(0.7);
    let r = skeleton.add_bone(root);
    let mut mid = Bone::new("mid");
    mid.scale = Vec3::new(1.0, 2.0, 3.0);
    let m = skeleton.add_bone(mid);
    let leaf = skeleton.add_bone(Bone::new("leaf"));
    skeleton.set_parent(m, r);
    skeleton.set_parent(leaf, m);
    let first = skeleton.compute_world_matrices();
    let second = skeleton.compute_world_matrices();
    assert_eq!(first, second);
    assert_eq!(first[leaf], first[r] * skeleton.bones[m].local_matrix() * skeleton.bones[leaf].local_matrix());
}

#[test]
fn reverse_link_is_rejected() {
    let mut skeleton = Skeleton::new();
    let a = skeleton.add_bone(Bone::new("a"));
    let b = skeleton.add_bone(Bone::new("b"));
    skeleton.set_parent(a, b);
    assert_eq!(skeleton.bones[a].parent, Some(b));
    skeleton.set_parent(b, a);
    assert_eq!(skeleton.bones[a].parent, Some(b));
    assert_eq!(skeleton.bones[b].parent, None);
    assert_eq!(skeleton.bones[b].children, vec![a]);
    assert!(skeleton.bones[a].children.is_empty());
    assert_eq!(skeleton.roots, vec![b]);
}

#[test]
fn deeper_cycle_is_rejected() {
    let mut skeleton = Skeleton::new();
    let a = skeleton.add_bone(Bone::new("a"));
    let b = skeleton.add_bone(Bone::new("b"));
    let c = skeleton.add_bone(Bone::new("c"));
    skeleton.set_parent(b, a);
    skeleton.set_parent(c, b);
    skeleton.set_parent(a, c);
    assert_eq!(skeleton.bones[a].parent, None);
    assert_eq!(skeleton.roots, vec![a]);
}

#[test]
fn set_parent_ignores_bad_indices_and_self() {
    let mut skeleton = Skeleton::new();
    let a = skeleton.add_bone(Bone::new("a"));
    let b = skeleton.add_bone(Bone::new("b"));
    skeleton.set_parent(a, a);
    skeleton.set_parent(a, 7);
    skeleton.set_parent(7, b);
    assert_eq!(skeleton.bones[a].parent, None);
    assert_eq!(skeleton.bones[b].parent, None);
    assert_eq!(skeleton.roots, vec![a, b]);
}

#[test]
fn reparenting_detaches_from_former_parent() {
    let mut skeleton = Skeleton::new();
    let a = skeleton.add_bone(Bone::new("a"));
    let b = skeleton.add_bone(Bone::new("b"));
    let c = skeleton.add_bone(Bone::new("c"));
    let d = skeleton.add_bone(Bone::new("d"));
    skeleton.set_parent(c, a);
    skeleton.set_parent(d, a);
    skeleton.set_parent(c, b);
    assert_eq!(skeleton.bones[a].children, vec![d]);
    assert_eq!(skeleton.bones[b].children, vec![c]);
    assert_eq!(skeleton.bones[c].parent, Some(b));
    assert_eq!(skeleton.roots, vec![a, b]);
    // Linking again under the same parent changes nothing.
    skeleton.set_parent(c, b);
    assert_eq!(skeleton.bones[b].children, vec![c]);
}

#[test]
fn get_and_get_mut_reach_bones_by_index() {
    let mut skeleton = Skeleton::new();
    let a = skeleton.add_bone(Bone::new("a"));
    assert_eq!(skeleton.get(a).unwrap().name, "a");
    assert!(skeleton.get(3).is_none());
    assert!(skeleton.get_mut(3).is_none());
    skeleton.get_mut(a).unwrap().translation = Vec3::new(4.0, 5.0, 6.0);
    assert_eq!(skeleton.bones[a].translation, Vec3::new(4.0, 5.0, 6.0));
    let world = skeleton.compute_world_matrices();
    assert_eq!(world[a].w_axis.truncate(), Vec3::new(4.0, 5.0, 6.0));
}

#[test]
fn skinning_matrices_multiply_by_inverse_bind() {
    let mut skeleton = Skeleton::new();
    let mut root = Bone::new("root");
    root.translation = Vec3::new(1.0, 2.0, 3.0);
    root.inverse_bind_matrix = Mat4::from_translation(Vec3::new(-1.0, -2.0, -3.0));
    let r = skeleton.add_bone(root);
    let joints = skeleton.compute_skinning_matrices();
    assert_eq!(joints.len(), 1);
    assert_eq!(joints[r], Mat4::IDENTITY);

    let data = SkinningData::from_skeleton(&skeleton);
    assert_eq!(data.joint_matrices, joints);
    let bytes = data.as_bytes();
    assert_eq!(bytes.len(), 64);
    assert_eq!(&bytes[0..4], &1.0f32.to_ne_bytes());
    assert_eq!(&bytes[4..8], &0.0f32.to_ne_bytes());
}

#[test]
fn empty_skeleton_has_no_matrices() {
    let skeleton = Skeleton::new();
    assert_eq!(skeleton.bone_count(), 0);
    assert!(skeleton.compute_world_matrices().is_empty());
    assert!(SkinningData::from_skeleton(&skeleton).as_bytes().is_empty());
}

#[test]
fn validate_accepts_what_the_skeleton_builds_itself() {
    let mut skeleton = Skeleton::new();
    assert!(skeleton.validate());
    let a = skeleton.add_bone(Bone::new("a"));
    let b = skeleton.add_bone(Bone::new("b"));
    let c = skeleton.add_bone(Bone::new("c"));
    skeleton.set_parent(b, a);
    skeleton.set_parent(c, b);
    skeleton.set_parent(c, a);
    assert!(skeleton.validate());
}

#[test]
fn validate_rejects_broken_links() {
    let build = || {
        let mut skeleton = Skeleton::new();
        let a = skeleton.add_bone(Bone::new("a"));
        let b = skeleton.add_bone(Bone::new("b"));
        let c = skeleton.add_bone(Bone::new("c"));
        skeleton.set_parent(b, a);
        skeleton.set_parent(c, b);
        skeleton
    };
    // A parent that is no bone.
    let mut s = build();
    s.bones[2].parent = Some(9);
    assert!(!s.validate());
    // A parent that does not list the child.
    let mut s = build();
    s.bones[1].children.clear();
    assert!(!s.validate());
    // A child listed twice.
    let mut s = build();
    s.bones[0].children.push(1);
    assert!(!s.validate());
    // A child that names another parent.
    let mut s = build();
    s.bones[0].children.push(2);
    assert!(!s.validate());
    // A root that is not listed, and a listed bone that is no root.
    let mut s = build();
    s.roots.clear();
    assert!(!s.validate());
    let mut s = build();
    s.roots.push(1);
    assert!(!s.validate());
    let mut s = build();
    s.roots.push(0);
    assert!(!s.validate());
    // A cycle: links agree with each other, but no walk ends.
    let mut s = Skeleton::new();
    s.add_bone(Bone::new("a"));
    s.add_bone(Bone::new("b"));
    s.roots.clear();
    s.bones[0].parent = Some(1);
    s.bones[1].parent = Some(0);
    s.bones[0].children.push(1);
    s.bones[1].children.push(0);
    assert!(!s.validate());
    // A bone added with a parent already set is not well formed either.
    let mut s = build();
    let mut stray = Bone::new("stray");
    stray.parent = Some(0);
    s.add_bone(stray);
    assert_eq!(s.roots, vec![0]);
    assert!(!s.validate());
}

#[test]
fn cloned_bones_and_skeletons_keep_their_transforms() {
    let mut bone = Bone::new("arm");
    bone.translation = Vec3::new(1.0, 2.0, 3.0);
    bone.rotation = Quat::from_rotation_x(0.5);
    bone.scale = Vec3::new(2.0, 3.0, 4.0);
    bone.inverse_bind_matrix = Mat4::from_scale(Vec3::new(0.5, 0.5, 0.5));
    let copy = bone.clone();
    assert_eq!(copy.name, "arm");
    assert_eq!(copy.translation, bone.translation);
    assert_eq!(copy.rotation, bone.rotation);
    assert_eq!(copy.scale, bone.scale);
    assert_eq!(copy.inverse_bind_matrix, bone.inverse_bind_matrix);

    let mut skeleton = Skeleton::default();
    skeleton.add_bone(bone);
    let twin = skeleton.clone();
    assert_eq!(twin.compute_world_matrices(), skeleton.compute_world_matrices());
}
