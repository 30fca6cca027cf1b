use obj::{MtlLibsLoadError, ObjError};
use pathtracer::bvh::{BVHNode, BvhItem};
use pathtracer::mesh::{
    polygons_are_complete, mesh_triangles, IndexTuple, MeshError, MeshTri, Polygon,
};

fn corner(p: usize, t: usize, n: usize) -> IndexTuple {
    IndexTuple { position: p, texture: Some(t), normal: Some(n) }
}

fn item(object: usize, x: i64, y: i64, z: i64) -> BvhItem {
    BvhItem { object, min_x: x, min_y: y, min_z: z }
}

fn leaves(node: &BVHNode, out: &mut Vec<BvhItem>) {
    match node {
        BVHNode::Leaf { item } => out.push(*item),
        BVHNode::Branch { left, right, .. } => {
            leaves(left, out);
            leaves(right, out);
        }
    }
}

fn check_node(node: &BVHNode) -> usize {
    match node {
        BVHNode::Leaf { .. } => 1,
        BVHNode::Branch { axis, left, right } => {
            assert!(*axis < 3);
            let l = check_node(left);
            let r = check_node(right);
            assert_eq!(l, (l + r) / 2);
            let mut low = Vec::new();
            let mut high = Vec::new();
            leaves(left, &mut low);
            leaves(right, &mut high);
            for a in low.iter() {
                for b in high.iter() {
                    assert!(a.key(*axis) <= b.key(*axis));
                }
            }
            l + r
        }
    }
}

#[test]
fn triangles_keep_their_indices_and_group() {
    let polygons = vec![
        Polygon { group: 0, corners: vec![corner(0, 1, 2), corner(3, 4, 5), corner(6, 7, 8)] },
        Polygon { group: 1, corners: vec![corner(2, 0, 0), corner(1, 0, 1), corner(0, 0, 2)] },
    ];
    assert!(polygons_are_complete(&polygons, 7, 8, 9));
    let tris = mesh_triangles(&polygons, 7, 8, 9).unwrap();
    assert_eq!(
        tris,
        vec![
            MeshTri {
                vertex_indices: (0, 3, 6),
                normal_indices: (2, 5, 8),
                texture_indices: (1, 4, 7),
                material_index: 0
            },
            MeshTri {
                vertex_indices: (2, 1, 0),
                normal_indices: (0, 1, 2),
                texture_indices: (0, 0, 0),
                material_index: 1
            },
        ]
    );
}

#[test]
fn quad_is_refused_as_untriangulated() {
    let polygons = vec![
        Polygon { group: 0, corners: vec![corner(0, 0, 0), corner(1, 0, 0), corner(2, 0, 0)] },
        Polygon {
            group: 0,
            corners: vec![corner(0, 0, 0), corner(1, 0, 0), corner(2, 0, 0), corner(3, 0, 0)],
        },
    ];
    assert!(polygons_are_complete(&polygons, 4, 1, 1));
    assert!(matches!(mesh_triangles(&polygons, 4, 1, 1), Err(MeshError::UntriangulatedError)));
}

#[test]
fn two_cornered_face_is_refused() {
    let polygons = vec![Polygon { group: 0, corners: vec![corner(0, 0, 0), corner(1, 0, 0)] }];
    assert!(matches!(mesh_triangles(&polygons, 2, 1, 1), Err(MeshError::UntriangulatedError)));
}

#[test]
fn model_without_faces_gives_no_triangles() {
    assert!(polygons_are_complete(&vec![], 0, 0, 0));
    assert_eq!(mesh_triangles(&vec![], 0, 0, 0).unwrap(), vec![]);
}

#[test]
fn missing_or_stray_indices_are_found() {
    let full = |c: IndexTuple| vec![Polygon { group: 0, corners: vec![corner(0, 0, 0), c, corner(0, 0, 0)] }];
    assert!(polygons_are_complete(&full(corner(1, 1, 1)), 2, 2, 2));
    assert!(!polygons_are_complete(
        &full(IndexTuple { position: 0, texture: Some(0), normal: None }),
        2,
        2,
        2
    ));
    assert!(!polygons_are_complete(
        &full(IndexTuple { position: 0, texture: None, normal: Some(0) }),
        2,
        2,
        2
    ));
    assert!(!polygons_are_complete(&full(corner(1, 1, 1)), 1, 2, 2));
    assert!(!polygons_are_complete(&full(corner(1, 1, 1)), 2, 1, 2));
    assert!(!polygons_are_complete(&full(corner(1, 1, 1)), 2, 2, 1));
}

#[test]
fn faces_after_the_first_non_triangle_are_not_looked_at() {
    let polygons = vec![
        Polygon { group: 0, corners: vec![corner(0, 0, 0), corner(1, 0, 0), corner(2, 0, 0)] },
        Polygon { group: 0, corners: vec![corner(0, 0, 0), corner(1, 0, 0)] },
        Polygon {
            group: 0,
            corners: vec![
                IndexTuple { position: 9, texture: None, normal: None },
                corner(1, 0, 0),
                corner(2, 0, 0),
            ],
        },
    ];
    assert!(polygons_are_complete(&polygons, 3, 1, 1));
    assert!(matches!(mesh_triangles(&polygons, 3, 1, 1), Err(MeshError::UntriangulatedError)));
    let stray_first = vec![
        Polygon { group: 0, corners: vec![corner(5, 0, 0), corner(1, 0, 0), corner(2, 0, 0)] },
        Polygon { group: 0, corners: vec![corner(0, 0, 0)] },
    ];
    assert!(!polygons_are_complete(&stray_first, 3, 1, 1));
}

#[test]
fn loader_errors_are_wrapped() {
    let e = MeshError::from(ObjError::MissingMTLName { line_number: 3 });
    assert!(matches!(
        e,
        MeshError::MeshLoadError(ObjError::MissingMTLName { line_number: 3 })
    ));
    let m = MeshError::from(MtlLibsLoadError(Vec::new()));
    assert!(matches!(m, MeshError::MaterialLoadError(_)));
}

#[test]
fn single_item_becomes_a_leaf() {
    let node = BVHNode::make(vec![item(5, 1, 2, 3)]);
    assert!(matches!(node, BVHNode::Leaf { item } if item == BvhItem { object: 5, min_x: 1, min_y: 2, min_z: 3 }));
}

#[test]
fn pair_puts_the_lesser_key_left() {
    let a = item(0, 5, 0, 9);
    let b = item(1, 3, 0, 9);
    let mut out = Vec::new();
    leaves(&BVHNode::pair(a, b, 0), &mut out);
    assert_eq!(out, vec![b, a]);
    let mut out = Vec::new();
    leaves(&BVHNode::make_on_axis(vec![b, a], 0), &mut out);
    assert_eq!(out, vec![b, a]);
}

#[test]
fn pair_with_equal_keys_puts_the_second_left() {
    let a = item(0, 5, 0, 9);
    let b = item(1, 3, 0, 9);
    let mut out = Vec::new();
    leaves(&BVHNode::pair(a, b, 1), &mut out);
    assert_eq!(out, vec![b, a]);
    let mut out = Vec::new();
    leaves(&BVHNode::pair(b, a, 2), &mut out);
    assert_eq!(out, vec![a, b]);
}

#[test]
fn root_is_sorted_on_the_given_axis_and_split_at_the_middle() {
    let items = vec![
        item(0, 50, 1, 0),
        item(1, 40, 2, 0),
        item(2, 30, 3, 0),
        item(3, 20, 4, 0),
        item(4, 10, 5, 0),
    ];
    let node = BVHNode::make_on_axis(items.clone(), 0);
    match &node {
        BVHNode::Branch { axis, left, right } => {
            assert_eq!(*axis, 0);
            let mut low = Vec::new();
            let mut high = Vec::new();
            leaves(left, &mut low);
            leaves(right, &mut high);
            let mut low_objects: Vec<usize> = low.iter().map(|i| i.object).collect();
            let mut high_objects: Vec<usize> = high.iter().map(|i| i.object).collect();
            low_objects.sort();
            high_objects.sort();
            assert_eq!(low_objects, vec![3, 4]);
            assert_eq!(high_objects, vec![0, 1, 2]);
        }
        BVHNode::Leaf { .. } => panic!("five items cannot be a leaf"),
    }
    assert_eq!(check_node(&node), 5);
}

#[test]
fn hierarchy_holds_exactly_the_given_items() {
    for n in 1..40usize {
        let items: Vec<BvhItem> = (0..n)
            .map(|k| item(k, ((k * 37) % 11) as i64 - 5, ((k * 13) % 7) as i64, -(k as i64)))
            .collect();
        let node = BVHNode::make(items.clone());
        assert_eq!(check_node(&node), n);
        let mut out = Vec::new();
        leaves(&node, &mut out);
        let mut objects: Vec<usize> = out.iter().map(|i| i.object).collect();
        objects.sort();
        assert_eq!(objects, (0..n).collect::<Vec<usize>>());
        for leaf in out.iter() {
            assert_eq!(*leaf, items[leaf.object]);
        }
    }
}

#[test]
fn keys_on_other_axes_fall_to_z() {
    let a = item(0, 1, 2, 3);
    assert_eq!(a.key(0), 1);
    assert_eq!(a.key(1), 2);
    assert_eq!(a.key(2), 3);
    assert_eq!(a.key(9), 3);
}

#[test]
fn items_with_equal_keys_keep_their_order_across_the_split() {
    let items: Vec<BvhItem> = (0..6).map(|k| item(k, 7, k as i64, -(k as i64))).collect();
    match BVHNode::make_on_axis(items, 0) {
        BVHNode::Branch { left, right, .. } => {
            let mut low = Vec::new();
            let mut high = Vec::new();
            leaves(&left, &mut low);
            leaves(&right, &mut high);
            let mut low: Vec<usize> = low.iter().map(|i| i.object).collect();
            let mut high: Vec<usize> = high.iter().map(|i| i.object).collect();
            low.sort();
            high.sort();
            assert_eq!(low, vec![0, 1, 2]);
            assert_eq!(high, vec![3, 4, 5]);
        }
        BVHNode::Leaf { .. } => panic!("six items cannot be a leaf"),
    }
}
