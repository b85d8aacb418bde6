use immense::evaluate::{evaluate, Evaluator};
use immense::export::{render_obj, total_vertices, Exporter};
use immense::mesh::Mesh;
use immense::rule::{NoDeferral, Replicate, Rule, ToRule};
use immense::shapes::cube_mesh;
use immense::transform::{Transform, Translate, Vertex};
use std::cell::Cell;
use immense::write_meshes;

fn triangle() -> Mesh {
    let vertices = vec![
        Vertex { x: 0, y: 0, z: 0 },
        Vertex { x: 1_500_000, y: -250_000, z: 0 },
        Vertex { x: 0, y: 2_000_000, z: 1 },
    ];
    Mesh::new(vertices, vec![vec![0, 1, 2]]).unwrap()
}

fn tetrahedron() -> Mesh {
    let vertices = vec![
        Vertex { x: 0, y: 0, z: 0 },
        Vertex { x: 1_000_000, y: 0, z: 0 },
        Vertex { x: 0, y: 1_000_000, z: 0 },
        Vertex { x: 0, y: 0, z: 1_000_000 },
    ];
    let faces = vec![vec![0, 2, 1], vec![0, 1, 3], vec![1, 2, 3], vec![2, 0, 3]];
    Mesh::new(vertices, faces).unwrap()
}

fn text(bytes: Vec<u8>) -> String {
    String::from_utf8(bytes).unwrap()
}

fn face_indices(text: &str) -> Vec<Vec<usize>> {
    text.lines()
        .filter(|line| line.starts_with("f "))
        .map(|line| line[2..].split(' ').map(|n| n.parse().unwrap()).collect())
        .collect()
}

#[test]
fn triangle_text() {
    assert_eq!(
        text(render_obj(&triangle(), 0)),
        "v 0.000000 0.000000 0.000000\n\
         v 1.500000 -0.250000 0.000000\n\
         v 0.000000 2.000000 0.000001\n\
         f 1 2 3\n"
    );
}

#[test]
fn offset_is_added_to_every_corner() {
    let out = text(render_obj(&triangle(), 10));
    assert!(out.ends_with("f 11 12 13\n"));
    assert!(out.starts_with("v 0.000000 0.000000 0.000000\n"));
    let out = text(render_obj(&triangle(), 997));
    assert!(out.ends_with("f 998 999 1000\n"));
}

#[test]
fn coordinates_are_written_in_full() {
    let vertices = vec![
        Vertex { x: i64::MAX, y: i64::MIN, z: -1 },
        Vertex { x: 12_345_678_901, y: -1_000_000, z: 999_999 },
        Vertex { x: 100_000, y: 10, z: -10_000_000 },
    ];
    let mesh = Mesh::new(vertices, Vec::new()).unwrap();
    assert_eq!(
        text(render_obj(&mesh, 0)),
        "v 9223372036854.775807 -9223372036854.775808 -0.000001\n\
         v 12345.678901 -1.000000 0.999999\n\
         v 0.100000 0.000010 -10.000000\n"
    );
}

#[test]
fn empty_mesh_has_no_text() {
    let mesh = Mesh::new(Vec::new(), Vec::new()).unwrap();
    assert!(render_obj(&mesh, 5).is_empty());
}

#[test]
fn cube_text() {
    let out = text(render_obj(&cube_mesh(), 0));
    let lines: Vec<&str> = out.lines().collect();
    assert_eq!(lines.len(), 14);
    assert_eq!(lines[0], "v -0.500000 -0.500000 -0.500000");
    assert_eq!(lines[7], "v -0.500000 0.500000 0.500000");
    assert_eq!(lines[8], "f 1 4 3 2");
    assert_eq!(lines[13], "f 2 3 7 6");
}

#[test]
fn third_mesh_is_numbered_after_sixteen_vertices() {
    let meshes = vec![cube_mesh(), cube_mesh(), tetrahedron()];
    let counts: Vec<usize> = meshes.iter().map(|m| m.vertices().len()).collect();
    assert_eq!(counts, vec![8, 8, 4]);
    let mut sink = Vec::new();
    write_meshes(meshes, &mut sink);
    let out = text(sink);
    let faces = face_indices(&out);
    assert_eq!(faces.len(), 16);
    for face in &faces[0..6] {
        assert!(face.iter().all(|&i| 1 <= i && i <= 8));
    }
    for face in &faces[6..12] {
        assert!(face.iter().all(|&i| 9 <= i && i <= 16));
    }
    for face in &faces[12..16] {
        assert!(face.iter().all(|&i| 17 <= i && i <= 20));
    }
    assert_eq!(faces[12], vec![17, 19, 18]);
    assert_eq!(faces[15], vec![19, 17, 20]);
    assert_eq!(out.lines().filter(|line| line.starts_with("v ")).count(), 20);
}

#[test]
fn write_meshes_writes_mesh_after_mesh() {
    let mut sink = b"# scene\n".to_vec();
    write_meshes(vec![triangle(), triangle()], &mut sink);
    let one = text(render_obj(&triangle(), 0));
    let two = text(render_obj(&triangle(), 3));
    assert!(two.ends_with("f 4 5 6\n"));
    assert_eq!(text(sink), format!("# scene\n{}{}", one, two));
}

#[test]
fn write_meshes_of_nothing_leaves_the_sink() {
    let mut sink = vec![1, 2, 3];
    write_meshes(Vec::new(), &mut sink);
    assert_eq!(sink, vec![1, 2, 3]);
}

#[test]
fn exporter_counts_vertices() {
    let mut exporter = Exporter::new();
    assert_eq!(exporter.vertex_offset(), 0);
    assert!(exporter.has_room(&cube_mesh()));
    let first = exporter.render_next(&cube_mesh());
    assert_eq!(exporter.vertex_offset(), 8);
    assert_eq!(first, render_obj(&cube_mesh(), 0));
    let second = exporter.render_next(&triangle());
    assert_eq!(exporter.vertex_offset(), 11);
    assert_eq!(second, render_obj(&triangle(), 8));
    let empty = Mesh::new(Vec::new(), Vec::new()).unwrap();
    assert!(exporter.render_next(&empty).is_empty());
    assert_eq!(exporter.vertex_offset(), 11);
}

#[test]
fn exporter_agrees_with_write_meshes() {
    let mut exporter = Exporter::new();
    let mut streamed = Vec::new();
    for mesh in [cube_mesh(), tetrahedron(), triangle()] {
        assert!(exporter.has_room(&mesh));
        streamed.extend(exporter.render_next(&mesh));
    }
    let mut sink = Vec::new();
    write_meshes(vec![cube_mesh(), tetrahedron(), triangle()], &mut sink);
    assert_eq!(streamed, sink);
}

#[test]
fn total_vertices_adds_up_the_meshes() {
    assert_eq!(total_vertices(&Vec::new()), Some(0));
    assert_eq!(total_vertices(&vec![cube_mesh(), cube_mesh(), tetrahedron()]), Some(20));
    assert_eq!(total_vertices(&vec![triangle()]), Some(3));
}

fn written(meshes: Vec<Mesh>) -> Vec<u8> {
    assert!(total_vertices(&meshes).is_some());
    let mut sink = Vec::new();
    write_meshes(meshes, &mut sink);
    sink
}

fn flat(rule: Rule<NoDeferral>) -> Vec<Mesh> {
    assert!(rule.is_static());
    evaluate(rule, Transform::identity())
}

fn child(n: usize) -> Rule<NoDeferral> {
    match n {
        0 => Rule::new().push(Rule::leaf(triangle())).push(Rule::leaf(tetrahedron())),
        1 => Rule::leaf(cube_mesh()).tf(Translate::x(2_000_000)),
        _ => Rule::new().push(Rule::leaf(tetrahedron()).tf(Translate::z(5))),
    }
}

#[test]
fn three_children_are_written_child_by_child() {
    let whole = written(flat(Rule::new().push(child(0)).push(child(1)).push(child(2))));
    let mut exporter = Exporter::new();
    let mut expected = Vec::new();
    let mut offsets = Vec::new();
    for n in 0..3 {
        offsets.push(exporter.vertex_offset());
        for mesh in flat(child(n)) {
            expected.extend(exporter.render_next(&mesh));
        }
    }
    assert_eq!(offsets, vec![0, 7, 15]);
    assert_eq!(whole, expected);
    let alone = written(flat(child(0)));
    assert_eq!(&whole[..alone.len()], &alone[..]);
    let faces = face_indices(&text(whole));
    assert_eq!(faces[0], vec![1, 2, 3]);
    assert_eq!(faces[1], vec![4, 6, 5]);
    assert_eq!(faces[5], vec![8, 11, 10, 9]);
    assert_eq!(faces[11], vec![16, 18, 17]);
}

#[test]
fn replicated_mesh_is_written_copy_by_copy() {
    let rule = Rule::leaf(triangle()).replicate(&Replicate::n(3, Translate::y(1_100_000)));
    let out = text(written(flat(rule)));
    assert_eq!(
        out,
        "v 0.000000 0.000000 0.000000\n\
         v 1.500000 -0.250000 0.000000\n\
         v 0.000000 2.000000 0.000001\n\
         f 1 2 3\n\
         v 0.000000 1.100000 0.000000\n\
         v 1.500000 0.850000 0.000000\n\
         v 0.000000 3.100000 0.000001\n\
         f 4 5 6\n\
         v 0.000000 2.200000 0.000000\n\
         v 1.500000 1.950000 0.000000\n\
         v 0.000000 4.200000 0.000001\n\
         f 7 8 9\n"
    );
}

#[derive(Clone, Copy)]
struct Growing<'a> {
    calls: &'a Cell<usize>,
}

impl<'a> ToRule for Growing<'a> {
    fn to_rule(&self) -> Rule<Self> {
        let n = self.calls.get();
        self.calls.set(n + 1);
        let vertices = (0..n + 3).map(|i| Vertex { x: i as i64, y: n as i64, z: 0 }).collect();
        Rule::leaf(Mesh::new(vertices, vec![(0..n + 3).collect()]).unwrap())
    }
}

#[test]
fn four_differing_meshes_get_running_offsets() {
    let calls = Cell::new(0);
    let rule = Rule::defer(Growing { calls: &calls }).replicate(&Replicate::n(4, Translate::z(1)));
    let mut walk = Evaluator::new(rule, Transform::identity());
    let mut meshes = Vec::new();
    while !walk.advance(8, &mut meshes) {}
    assert_eq!(calls.get(), 4);
    let counts: Vec<usize> = meshes.iter().map(|m| m.vertices().len()).collect();
    assert_eq!(counts, vec![3, 4, 5, 6]);
    let mut expected = Vec::new();
    let mut offset = 0;
    for mesh in &meshes {
        expected.extend(render_obj(mesh, offset));
        offset += mesh.vertices().len();
    }
    let out = written(meshes);
    assert_eq!(out, expected);
    let faces = face_indices(&text(out));
    assert_eq!(
        faces,
        vec![
            vec![1, 2, 3],
            vec![4, 5, 6, 7],
            vec![8, 9, 10, 11, 12],
            vec![13, 14, 15, 16, 17, 18],
        ]
    );
}
