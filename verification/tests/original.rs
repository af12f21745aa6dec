use sugarcane::block::{Block, Prop, PropKind};
use sugarcane::player::Player;

#[derive(Debug, Clone, PartialEq)]
struct MyOptions {
    pub baz: i32,
    pub other: i32,
}

impl Default for MyOptions {
    fn default() -> Self {
        MyOptions { baz: 3, other: 0 }
    }
}

#[test]
fn default_values() {
    assert_eq!(MyOptions::default(), MyOptions { baz: 3, other: 0 });
}

fn block_with(properties: Vec<Prop>) -> Block {
    Block::new(0, String::new(), properties)
}

#[test]
fn test_all_states() {
    let b = block_with(vec![]);
    assert_eq!(b.all_states().len(), 1);

    let b = block_with(vec![Prop {
        name: "".into(),
        kind: PropKind::Enum(vec!["a".into(), "b".into(), "c".into()]),
    }]);
    assert_eq!(b.all_states().len(), 3);

    let b = block_with(vec![Prop { name: "".into(), kind: PropKind::Bool }]);
    assert_eq!(b.all_states().len(), 2);

    let b = block_with(vec![
        Prop { name: "".into(), kind: PropKind::Bool },
        Prop { name: "".into(), kind: PropKind::Bool },
    ]);
    assert_eq!(b.all_states().len(), 4);

    let b = block_with(vec![
        Prop { name: "".into(), kind: PropKind::Enum(vec!["a".into(), "b".into(), "c".into()]) },
        Prop { name: "".into(), kind: PropKind::Bool },
    ]);
    assert_eq!(b.all_states().len(), 6);

    let b = block_with(vec![Prop { name: "".into(), kind: PropKind::Int { min: 0, max: 1 } }]);
    assert_eq!(b.all_states().len(), 2);
}

#[test]
fn assert_sync() {
    fn is_sync<T: Send + Sync>() {}
    is_sync::<Player>(); // only compiles is player is Sync
}
