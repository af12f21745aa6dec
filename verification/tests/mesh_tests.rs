use sugarcane::chunk::Chunk;
use sugarcane::math::{Face, RelPos};
use sugarcane::mesh::{add_face, draw_face, MeshChunk, Vert3};

fn at(x: i32, y: i32, z: i32) -> RelPos {
    RelPos::new(x, y, z).unwrap()
}

fn v(x: i32, y: i32, z: i32) -> Vert3 {
    Vert3 { x, y, z }
}

fn face(p: RelPos, f: Face) -> Vec<Vert3> {
    let mut out = Vec::new();
    add_face(&mut out, p, f);
    out
}

#[test]
fn corners_of_each_face() {
    let p = at(1, 2, 3);
    assert_eq!(
        face(p, Face::Top),
        vec![v(2, 3, 4), v(2, 3, 3), v(1, 3, 3), v(1, 3, 3), v(1, 3, 4), v(2, 3, 4)]
    );
    assert_eq!(
        face(p, Face::Bottom),
        vec![v(2, 2, 4), v(2, 2, 3), v(1, 2, 3), v(1, 2, 3), v(1, 2, 4), v(2, 2, 4)]
    );
    assert_eq!(
        face(p, Face::South),
        vec![v(2, 3, 4), v(2, 2, 4), v(1, 2, 4), v(1, 2, 4), v(1, 3, 4), v(2, 3, 4)]
    );
    assert_eq!(
        face(p, Face::North),
        vec![v(2, 3, 3), v(2, 2, 3), v(1, 2, 3), v(1, 2, 3), v(1, 3, 3), v(2, 3, 3)]
    );
    assert_eq!(
        face(p, Face::East),
        vec![v(2, 3, 4), v(2, 3, 3), v(2, 2, 3), v(2, 2, 3), v(2, 2, 4), v(2, 3, 4)]
    );
    assert_eq!(
        face(p, Face::West),
        vec![v(1, 3, 4), v(1, 3, 3), v(1, 2, 3), v(1, 2, 3), v(1, 2, 4), v(1, 3, 4)]
    );
    // the far corner of the column
    assert_eq!(face(at(15, 255, 15), Face::Top)[0], v(16, 256, 16));
    let mut buf = vec![v(9, 9, 9)];
    add_face(&mut buf, p, Face::West);
    assert_eq!(buf.len(), 7);
    assert_eq!(buf[0], v(9, 9, 9));
    let order: Vec<Face> = (0..6).map(draw_face).collect();
    assert_eq!(
        order,
        vec![Face::Top, Face::Bottom, Face::South, Face::North, Face::East, Face::West]
    );
}

#[test]
fn a_block_alone_shows_six_faces() {
    let mut chunk = Chunk::new();
    chunk.set_block(at(5, 70, 5), 1);
    let mut mesh = MeshChunk::new(chunk);
    assert!(!mesh.is_outdated());
    let p = at(5, 70, 5);
    let mut expected = Vec::new();
    for f in [Face::Top, Face::Bottom, Face::South, Face::North, Face::East, Face::West] {
        expected.extend(face(p, f));
    }
    assert_eq!(*mesh.get_vbuf(), expected);
    assert!(MeshChunk::new(Chunk::new()).get_vbuf().is_empty());
}

#[test]
fn faces_between_blocks_and_at_the_border_are_left_out() {
    let mut chunk = Chunk::new();
    chunk.set_block(at(0, 0, 0), 1);
    // only up, south and east lead to a cell of the column
    let mut mesh = MeshChunk::new(chunk);
    let corner = at(0, 0, 0);
    let mut expected = face(corner, Face::Top);
    expected.extend(face(corner, Face::South));
    expected.extend(face(corner, Face::East));
    assert_eq!(*mesh.get_vbuf(), expected);

    // a second block to the east hides the face between the two
    assert_eq!(mesh.set_block(at(1, 0, 0), 2), 0);
    assert!(mesh.is_outdated());
    let next = at(1, 0, 0);
    let mut expected = face(corner, Face::Top);
    expected.extend(face(corner, Face::South));
    expected.extend(face(next, Face::Top));
    expected.extend(face(next, Face::South));
    expected.extend(face(next, Face::East));
    assert_eq!(*mesh.get_vbuf(), expected);
    assert!(!mesh.is_outdated());
    assert_eq!(mesh.chunk().get_block(next), 2);
}

#[test]
fn the_mesh_follows_the_column() {
    let mut mesh = MeshChunk::new(Chunk::new());
    // a full layer shows its top and its bottom, and nothing at its rim
    mesh.fill(at(0, 10, 0), at(15, 10, 15), 3);
    assert!(mesh.is_outdated());
    assert_eq!(mesh.get_vbuf().len(), 256 * 2 * 6);
    // a solid cube of two layers
    mesh.fill(at(0, 11, 0), at(15, 11, 15), 3);
    let buf = mesh.get_vbuf().clone();
    assert_eq!(buf.len(), 256 * 2 * 6);
    // cells come layer by layer: the lower layer shows its bottoms first
    assert_eq!(buf[..6], face(at(0, 10, 0), Face::Bottom)[..]);
    assert_eq!(buf[6..12], face(at(1, 10, 0), Face::Bottom)[..]);
    assert_eq!(buf[256 * 6..256 * 6 + 6], face(at(0, 11, 0), Face::Top)[..]);
    // a hole in the upper layer: its four walls and its floor appear
    mesh.set_block(at(8, 11, 8), 0);
    assert_eq!(mesh.get_vbuf().len(), (256 * 2 - 1 + 5) * 6);
    // the lowest layer has nothing below it
    mesh.fill(at(0, 0, 0), at(15, 255, 15), 0);
    mesh.fill(at(0, 0, 0), at(15, 0, 15), 1);
    assert_eq!(mesh.get_vbuf().len(), 256 * 6);
    mesh.fill(at(0, 0, 0), at(15, 255, 15), 1);
    assert!(mesh.get_vbuf().is_empty());
    mesh.update_mesh();
    assert!(mesh.get_vbuf().is_empty());
}
