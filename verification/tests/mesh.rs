use render_graph::frame::Viewport;
use render_graph::image::Extent;
use render_graph::mesh::{
    can_merge, convert_mesh, has_normals, merge, patch_viewport, sequential_indices, triples,
    try_merge, with_tangents, Mesh, Pair, Pos, PosTexNorm, PosTexNormTan, Triple,
};

fn vertex(x: f32) -> PosTexNorm<f32> {
    PosTexNorm {
        position: Triple { x, y: x + 0.25, z: x + 0.5 },
        tex_coord: Pair { u: x, v: -x },
        normal: Triple { x: 0.0, y: 1.0, z: 0.0 },
    }
}

fn position(x: f32) -> Pos<f32> {
    Pos { position: Triple { x, y: x + 0.25, z: x + 0.5 } }
}

#[test]
fn triples_groups_scalars_by_three_and_drops_the_rest() {
    let flat = vec![1.0f32, 2.0, 3.0, 4.0, 5.0, 6.0, 7.0, 8.0];
    assert_eq!(
        triples(&flat),
        vec![Triple { x: 1.0, y: 2.0, z: 3.0 }, Triple { x: 4.0, y: 5.0, z: 6.0 }]
    );
    assert_eq!(triples(&vec![1u8, 2]), vec![]);
}

fn flip(v: f32) -> f32 {
    v * -1.0
}

#[test]
fn convert_mesh_turns_the_second_texture_scalar_over() {
    let positions = vec![1.0f32, 2.0, 3.0];
    let normals = vec![0.0f32, 0.0, 1.0];
    let texcoords = vec![0.25f32, 0.5];
    let indices = vec![0u32];
    let mesh = convert_mesh(&positions, &normals, &texcoords, &indices, flip, 0.0);
    assert_eq!(
        mesh.vertices,
        vec![PosTexNorm {
            position: Triple { x: 1.0, y: 2.0, z: 3.0 },
            tex_coord: Pair { u: 0.25, v: -0.5 },
            normal: Triple { x: 0.0, y: 0.0, z: 1.0 },
        }]
    );
    assert_eq!(mesh.indices, vec![0]);
}

#[test]
fn convert_mesh_builds_one_vertex_for_three_positions() {
    let positions = vec![0.0f32, 1.0, 2.0, 3.0, 4.0, 5.0];
    let normals = vec![0.0f32, 0.0, 1.0, 1.0, 0.0, 0.0];
    let texcoords = vec![0.5f32, 0.25, 0.75, 1.0];
    let indices = vec![0u32, 1, 0];
    let mesh = convert_mesh(&positions, &normals, &texcoords, &indices, flip, 0.0);
    assert_eq!(
        mesh.vertices,
        vec![
            PosTexNorm {
                position: Triple { x: 0.0, y: 1.0, z: 2.0 },
                tex_coord: Pair { u: 0.5, v: -0.25 },
                normal: Triple { x: 0.0, y: 0.0, z: 1.0 },
            },
            PosTexNorm {
                position: Triple { x: 3.0, y: 4.0, z: 5.0 },
                tex_coord: Pair { u: 0.75, v: -1.0 },
                normal: Triple { x: 1.0, y: 0.0, z: 0.0 },
            },
        ]
    );
    assert_eq!(mesh.indices, indices);
}

#[test]
fn vertex_without_both_texture_scalars_gets_zero_twice() {
    let positions = vec![0i32; 9];
    let normals = vec![1i32; 9];
    let texcoords = vec![7i32, 8, 9];
    let mesh = convert_mesh(&positions, &normals, &texcoords, &vec![], |v: i32| -v, 0);
    assert_eq!(mesh.vertices.len(), 3);
    assert_eq!(mesh.vertices[0].tex_coord, Pair { u: 7, v: -8 });
    assert_eq!(mesh.vertices[1].tex_coord, Pair { u: 0, v: 0 });
    assert_eq!(mesh.vertices[2].tex_coord, Pair { u: 0, v: 0 });
}

#[test]
fn zero_of_a_missing_texture_coordinate_is_not_turned_over() {
    let positions = vec![0.0f32; 3];
    let normals = vec![0.0f32; 3];
    let mesh = convert_mesh(&positions, &normals, &vec![], &vec![], flip, 0.0);
    let v = mesh.vertices[0].tex_coord.v;
    assert_eq!(v.to_bits(), 0.0f32.to_bits());
}

#[test]
fn convert_mesh_drops_positions_that_do_not_make_a_vertex() {
    let positions = vec![1u8, 2, 3, 4, 5];
    let normals = vec![9u8, 9, 9];
    let mesh = convert_mesh(&positions, &normals, &vec![], &vec![2, 1], |v: u8| v, 0);
    assert_eq!(mesh.vertices.len(), 1);
    assert_eq!(mesh.vertices[0].position, Triple { x: 1, y: 2, z: 3 });
    assert_eq!(mesh.vertices[0].normal, Triple { x: 9, y: 9, z: 9 });
    assert_eq!(mesh.indices, vec![2, 1]);
}

#[test]
fn with_tangents_keeps_the_vertices_and_adds_each_tangent() {
    let mesh = Mesh { vertices: vec![vertex(0.0), vertex(1.0)], indices: vec![1, 0, 1] };
    let tangents = vec![Triple { x: 1.0, y: 0.0, z: 0.0 }, Triple { x: 0.0, y: 0.0, z: 1.0 }];
    let result = with_tangents(&mesh, &tangents);
    assert_eq!(
        result.vertices,
        vec![
            PosTexNormTan {
                position: vertex(0.0).position,
                tex_coord: vertex(0.0).tex_coord,
                normal: vertex(0.0).normal,
                tangent: Triple { x: 1.0, y: 0.0, z: 0.0 },
            },
            PosTexNormTan {
                position: vertex(1.0).position,
                tex_coord: vertex(1.0).tex_coord,
                normal: vertex(1.0).normal,
                tangent: Triple { x: 0.0, y: 0.0, z: 1.0 },
            },
        ]
    );
    assert_eq!(result.indices, vec![1, 0, 1]);
}

#[test]
fn with_tangents_of_the_empty_mesh_is_empty() {
    let mesh: Mesh<PosTexNorm<f32>> = Mesh { vertices: vec![], indices: vec![] };
    let result = with_tangents(&mesh, &vec![]);
    assert_eq!(result, Mesh { vertices: vec![], indices: vec![] });
}

#[test]
fn has_normals_tells_whether_every_position_has_a_normal() {
    assert!(has_normals(&vec![0u8; 6], &vec![0u8; 6]));
    assert!(has_normals(&vec![0u8; 8], &vec![0u8; 6]));
    assert!(has_normals(&vec![0u8; 2], &vec![]));
    assert!(!has_normals(&vec![0u8; 6], &vec![0u8; 5]));
    assert!(!has_normals(&vec![0u8; 3], &vec![]));
}

#[test]
fn merge_appends_vertices_and_moves_indices_up() {
    let first = Mesh { vertices: vec![vertex(0.0), vertex(1.0), vertex(2.0)], indices: vec![0, 1, 2] };
    let second = Mesh { vertices: vec![vertex(10.0), vertex(11.0)], indices: vec![1, 0, 1] };
    let third = Mesh { vertices: vec![vertex(20.0)], indices: vec![0] };
    let meshes = vec![first, second, third];
    assert!(can_merge(&meshes));
    let merged = merge(&meshes);
    assert_eq!(
        merged.vertices,
        vec![
            position(0.0),
            position(1.0),
            position(2.0),
            position(10.0),
            position(11.0),
            position(20.0)
        ]
    );
    assert_eq!(merged.indices, vec![0, 1, 2, 4, 3, 4, 5]);
}

#[test]
fn merge_of_nothing_is_the_empty_mesh() {
    let meshes: Vec<Mesh<PosTexNorm<f32>>> = vec![];
    assert!(can_merge(&meshes));
    assert_eq!(merge(&meshes), Mesh { vertices: vec![], indices: vec![] });
}

#[test]
fn merged_index_points_to_the_position_it_pointed_to() {
    let meshes = vec![
        Mesh { vertices: vec![vertex(0.0), vertex(1.0)], indices: vec![1] },
        Mesh { vertices: vec![vertex(5.0), vertex(6.0), vertex(7.0)], indices: vec![2, 0] },
    ];
    let merged = merge(&meshes);
    assert_eq!(merged.vertices[merged.indices[1] as usize].position, vertex(7.0).position);
    assert_eq!(merged.vertices[merged.indices[2] as usize].position, vertex(5.0).position);
}

#[test]
fn index_that_would_not_fit_after_moving_cannot_be_merged() {
    let first: Mesh<PosTexNorm<f32>> = Mesh { vertices: vec![vertex(0.0)], indices: vec![u32::MAX] };
    assert!(can_merge(&vec![first.clone()]));
    let second = Mesh { vertices: vec![vertex(1.0)], indices: vec![u32::MAX] };
    assert!(!can_merge(&vec![first.clone(), second.clone()]));
    assert_eq!(try_merge(&vec![first.clone(), second]), None);
    let third = Mesh { vertices: vec![vertex(1.0)], indices: vec![u32::MAX - 1] };
    let merged = try_merge(&vec![first, third]).unwrap();
    assert_eq!(merged.indices, vec![u32::MAX, u32::MAX]);
    assert_eq!(merged.vertices, vec![position(0.0), position(1.0)]);
}

#[test]
fn sequential_indices_count_up_from_zero() {
    assert_eq!(sequential_indices(0), vec![]);
    assert_eq!(sequential_indices(4), vec![0, 1, 2, 3]);
}

#[test]
fn patches_are_laid_out_row_by_row() {
    let patch = Extent { width: 1024, height: 1024 };
    let three_by_two: Vec<(u32, u32)> =
        (0..6).map(|i| patch_viewport(i, 3, patch).unwrap()).map(|v| (v.x, v.y)).collect();
    assert_eq!(
        three_by_two,
        vec![(0, 0), (1024, 0), (2048, 0), (0, 1024), (1024, 1024), (2048, 1024)]
    );
    assert_eq!(
        patch_viewport(5, 6, patch),
        Some(Viewport { x: 5120, y: 0, width: 1024, height: 1024 })
    );
}

#[test]
fn patch_without_columns_or_beyond_the_range_has_no_viewport() {
    let patch = Extent { width: 1024, height: 1024 };
    assert_eq!(patch_viewport(0, 0, patch), None);
    let huge = Extent { width: u32::MAX, height: 1 };
    assert_eq!(patch_viewport(1, 2, huge).map(|v| v.x), Some(u32::MAX));
    assert_eq!(patch_viewport(2, 3, huge), None);
    let tall = Extent { width: 1, height: u32::MAX };
    assert_eq!(patch_viewport(2, 1, tall), None);
}
