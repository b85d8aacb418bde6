use immense::error::Error;
use immense::mesh::Mesh;
use immense::shapes::cube_mesh;
use immense::transform::{Scale, Translate, Vertex};

fn corners(n: i64) -> Vec<Vertex> {
    (0..n).map(|i| Vertex { x: i, y: 2 * i, z: -i }).collect()
}

#[test]
fn mesh_keeps_vertices_and_faces() {
    let faces = vec![vec![0, 1, 2], vec![2, 1, 0, 3]];
    let mesh = Mesh::new(corners(4), faces.clone()).unwrap();
    assert_eq!(mesh.vertices(), &corners(4));
    assert_eq!(mesh.faces(), &faces);
}

#[test]
fn mesh_may_be_empty() {
    let mesh = Mesh::new(Vec::new(), Vec::new()).unwrap();
    assert!(mesh.vertices().is_empty());
    assert!(mesh.faces().is_empty());
    let points = Mesh::new(corners(2), Vec::new()).unwrap();
    assert_eq!(points.vertices().len(), 2);
}

#[test]
fn face_with_two_corners_is_refused() {
    let r = Mesh::new(corners(3), vec![vec![0, 1, 2], vec![0, 1]]);
    assert_eq!(r.err(), Some(Error::FaceTooSmall { face: 1 }));
    let r = Mesh::new(corners(3), vec![vec![]]);
    assert_eq!(r.err(), Some(Error::FaceTooSmall { face: 0 }));
}

#[test]
fn corner_without_vertex_is_refused() {
    let r = Mesh::new(corners(3), vec![vec![0, 1, 2], vec![0, 3, 2]]);
    assert_eq!(r.err(), Some(Error::IndexOutOfRange { face: 1, corner: 1 }));
    let r = Mesh::new(Vec::new(), vec![vec![0, 0, 0]]);
    assert_eq!(r.err(), Some(Error::IndexOutOfRange { face: 0, corner: 0 }));
}

#[test]
fn first_defect_is_reported() {
    let r = Mesh::new(corners(3), vec![vec![0, 1, 9, 7], vec![0]]);
    assert_eq!(r.err(), Some(Error::IndexOutOfRange { face: 0, corner: 2 }));
    let r = Mesh::new(corners(3), vec![vec![5, 6], vec![0, 1, 7]]);
    assert_eq!(r.err(), Some(Error::FaceTooSmall { face: 0 }));
}

#[test]
fn last_vertex_is_in_range() {
    assert!(Mesh::new(corners(3), vec![vec![2, 2, 2]]).is_ok());
    assert!(Mesh::new(corners(3), vec![vec![2, 2, 3]]).is_err());
}

#[test]
fn transformed_moves_vertices_and_keeps_faces() {
    let mesh = Mesh::new(corners(3), vec![vec![0, 1, 2]]).unwrap();
    let moved = mesh.transformed(&Translate::xyz(10, 20, 30));
    assert_eq!(
        moved.vertices(),
        &vec![
            Vertex { x: 10, y: 20, z: 30 },
            Vertex { x: 11, y: 22, z: 29 },
            Vertex { x: 12, y: 24, z: 28 },
        ]
    );
    assert_eq!(moved.faces(), mesh.faces());
    assert_eq!(mesh.vertices(), &corners(3));
}

#[test]
fn mesh_clone_is_equal() {
    let mesh = cube_mesh();
    let copy = mesh.clone();
    assert_eq!(copy.vertices(), mesh.vertices());
    assert_eq!(copy.faces(), mesh.faces());
}

#[test]
fn cube_is_the_unit_cube() {
    let cube = cube_mesh();
    assert_eq!(cube.vertices().len(), 8);
    assert_eq!(cube.faces().len(), 6);
    assert_eq!(cube.vertices()[0], Vertex { x: -500_000, y: -500_000, z: -500_000 });
    assert_eq!(cube.vertices()[6], Vertex { x: 500_000, y: 500_000, z: 500_000 });
    for v in cube.vertices() {
        assert!(v.x.abs() == 500_000 && v.y.abs() == 500_000 && v.z.abs() == 500_000);
    }
    for face in cube.faces() {
        assert_eq!(face.len(), 4);
    }
    assert_eq!(cube.faces()[0], vec![0, 3, 2, 1]);
    let mut seen = vec![0; 8];
    for face in cube.faces() {
        for &c in face {
            seen[c] += 1;
        }
    }
    assert_eq!(seen, vec![3; 8]);
}

#[test]
fn round_trip_scale_restores_the_cube() {
    let cube = cube_mesh();
    let back = cube
        .transformed(&Scale::all(400_000))
        .transformed(&Scale::all(2_500_000));
    assert_eq!(back.vertices(), cube.vertices());
    assert_eq!(back.faces(), cube.faces());
}
