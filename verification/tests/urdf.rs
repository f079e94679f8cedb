use rein::urdf::{joint_angle, LinkSide, UrdfLink, UrdfLoader, VisualShape, VisualSlot};

#[test]
fn link_sides_from_names() {
    assert_eq!(UrdfLoader::link_side("left_arm"), LinkSide::Left);
    assert_eq!(UrdfLoader::link_side("leftover"), LinkSide::Left);
    assert_eq!(UrdfLoader::link_side("right_gripper"), LinkSide::Right);
    assert_eq!(UrdfLoader::link_side("base_link"), LinkSide::Base);
    assert_eq!(UrdfLoader::link_side("Left_arm"), LinkSide::Base);
    assert_eq!(UrdfLoader::link_side(""), LinkSide::Base);
}

#[test]
fn mesh_visuals_are_skipped() {
    let links = vec![
        UrdfLink {
            name: String::from("base_link"),
            visuals: vec![VisualShape::Box, VisualShape::Mesh],
        },
        UrdfLink { name: String::from("left_link_1"), visuals: vec![] },
        UrdfLink {
            name: String::from("right_link_1"),
            visuals: vec![VisualShape::Mesh, VisualShape::Cylinder, VisualShape::Sphere],
        },
    ];
    assert_eq!(
        UrdfLoader::visual_slots(&links),
        vec![
            VisualSlot { link: 0, visual: 0, side: LinkSide::Base },
            VisualSlot { link: 2, visual: 1, side: LinkSide::Right },
            VisualSlot { link: 2, visual: 2, side: LinkSide::Right },
        ]
    );
}

#[test]
fn joint_angles_by_name() {
    let left = [0.1f32, 0.2, 0.3];
    let right = [1.5f32];
    assert_eq!(joint_angle("left_joint_1", &left, &right, 0.0), 0.1);
    assert_eq!(joint_angle("left_joint_3", &left, &right, 0.0), 0.3);
    assert_eq!(joint_angle("left_joint_4", &left, &right, 0.0), 0.0);
    assert_eq!(joint_angle("left_joint_0", &left, &right, 0.0), 0.0);
    assert_eq!(joint_angle("left_joint_+2", &left, &right, 0.0), 0.2);
    assert_eq!(joint_angle("left_joint_x", &left, &right, 0.0), 0.0);
    assert_eq!(joint_angle("right_joint_1", &left, &right, 0.0), 1.5);
    assert_eq!(joint_angle("right_joint_2", &left, &right, 0.0), 0.0);
    assert_eq!(joint_angle("base_joint", &left, &right, 0.0), 0.0);
    assert_eq!(joint_angle("left_joint_", &left, &right, 0.0), 0.0);
}
