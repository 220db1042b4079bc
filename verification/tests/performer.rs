use yamlette::model::renderer::{EncodedString, Node};
use yamlette::model::schema::Core;
use yamlette::model::style::CommonStyles;
use yamlette::model::yaml::integer::IntValue;
use yamlette::model::yaml::map::MapValue;
use yamlette::model::yaml::null::NullValue;
use yamlette::model::{Renderer, Rope, TaggedValue};
use yamlette::orchestra::conductor::{play_to_volume, render_music, take_hint, take_value, Coord, Hint, Volume};
use yamlette::orchestra::performer::{play_note, Play};

#[test]
fn threshold_stays_positive_through_setters() {
    let mut s = CommonStyles::default();
    assert_eq!(s.threshold(), 120);
    s.set_threshold(0);
    assert_eq!(s.threshold(), 120);
    s.set_threshold(5);
    assert_eq!(s.threshold(), 5);
    s.set_flow(true);
    s.set_compact(true);
    s.set_respect_threshold(true);
    s.set_multiline(true);
    s.set_issue_tag(true);
    s.set_indent(0);
    s.set_threshold(0);
    assert_eq!(s.threshold(), 5);
    assert!(s.threshold() >= 1);
    assert_eq!(s.indent(), 2);
}

#[test]
fn play_note_writes_a_scalar_with_its_length_at_the_top() {
    let core = Core::new();
    let renderer = Renderer;
    let coord = Coord::new(0, 1, 0);
    match play_note(&core, &renderer, coord, TaggedValue::Int(IntValue::from(581i32)), &[]) {
        Ok(Play::Note(c, rope, len)) => {
            assert_eq!((c.vol, c.idx, c.lvl), (0, 1, 0));
            assert_eq!(len, 3);
            assert_eq!(rope.render(&renderer), b"581".to_vec());
        }
        _ => panic!("expected a note"),
    }
}

#[test]
fn play_note_counts_nothing_below_the_top() {
    let core = Core::new();
    let renderer = Renderer;
    match play_note(&core, &renderer, Coord::new(0, 2, 1), TaggedValue::Null(NullValue::default()), &[]) {
        Ok(Play::Note(c, rope, len)) => {
            assert_eq!(c.lvl, 1);
            assert_eq!(len, 0);
            assert_eq!(rope.render(&renderer), b"~".to_vec());
        }
        _ => panic!("expected a note"),
    }
}

#[test]
fn play_note_lets_a_collection_wait() {
    let core = Core::new();
    let renderer = Renderer;
    let played = play_note(&core, &renderer, Coord::new(0, 0, 0), TaggedValue::Mapping(MapValue::new(CommonStyles::default(), None)), &[]);
    assert!(matches!(played, Ok(Play::Legato(_, TaggedValue::Mapping(_)))));
}

#[test]
fn checked_bytes_len_counts_every_node() {
    let renderer = Renderer;
    let rope = Rope::Many(vec![
        Node::String(EncodedString::String(b"ab".to_vec())),
        Node::NewlineIndent(2),
        Node::Comma,
    ]);
    assert_eq!(rope.checked_bytes_len(&renderer), Some(6));
    assert_eq!(rope.bytes_len(&renderer), 6);
    assert_eq!(Rope::Empty.checked_bytes_len(&renderer), Some(0));
    let huge = Rope::Many(vec![Node::Indent(usize::MAX), Node::Comma]);
    assert_eq!(huge.checked_bytes_len(&renderer), None);
    assert_eq!(Rope::Many(vec![Node::NewlineIndent(usize::MAX)]).checked_bytes_len(&renderer), None);
}

#[test]
fn render_music_takes_the_top_level_records_in_turn() {
    let renderer = Renderer;
    let mut volumes: Vec<Volume> = Vec::new();
    let mut num: usize = 0;
    let mut flush = false;
    take_hint(&mut volumes, &mut num, &mut flush, Hint::Volumes(1));
    take_hint(&mut volumes, &mut num, &mut flush, Hint::VolumeNext);
    let _ = take_value(&mut volumes, 0, TaggedValue::Int(IntValue::from(7u8)));
    let rope = Rope::Many(vec![Node::String(EncodedString::String(b"7".to_vec()))]);
    let idx = volumes[0].len() - 1;
    play_to_volume(&mut volumes, Play::Note(Coord::new(0, idx, 0), rope, 1));
    assert_eq!(render_music(&renderer, volumes), b"7".to_vec());
    assert_eq!(render_music(&renderer, Vec::new()), Vec::<u8>::new());
}

#[test]
fn play_style_writes_the_yaml_directive_with_its_length() {
    let core = Core::new();
    let renderer = Renderer;
    match yamlette::orchestra::performer::play_style(&core, &renderer, Coord::new(0, 0, 0), yamlette::orchestra::conductor::VolumeStyle::Yaml, &None) {
        Ok(Play::Note(_, rope, len)) => {
            assert_eq!(len, 10);
            assert_eq!(rope.render(&renderer), b"%YAML 1.2\n".to_vec());
        }
        _ => panic!("expected a note"),
    }
}

fn chord_items() -> Vec<Rope> {
    vec![
        Rope::Many(vec![Node::String(EncodedString::String(b"a".to_vec()))]),
        Rope::Many(vec![Node::String(EncodedString::String(b"1".to_vec()))]),
        Rope::Many(vec![Node::String(EncodedString::String(b"b".to_vec()))]),
        Rope::Many(vec![Node::String(EncodedString::String(b"2".to_vec()))]),
    ]
}

#[test]
fn play_chord_writes_a_mapping_with_its_items() {
    let core = Core::new();
    let renderer = Renderer;
    let value = TaggedValue::Mapping(MapValue::new(CommonStyles::default(), None));
    match yamlette::orchestra::performer::play_chord(&core, &renderer, Coord::new(0, 0, 0), value, &[], chord_items()) {
        Ok(Play::Chord(c, rope, len)) => {
            assert_eq!(c.idx, 0);
            assert_eq!(len, 10);
            assert_eq!(rope.render(&renderer), b"a: 1\nb: 2\n".to_vec());
        }
        _ => panic!("expected a chord"),
    }
    let below = TaggedValue::Mapping(MapValue::new(CommonStyles::default(), None));
    match yamlette::orchestra::performer::play_chord(&core, &renderer, Coord::new(0, 3, 2), below, &[], chord_items()) {
        Ok(Play::Chord(_, _, len)) => assert_eq!(len, 0),
        _ => panic!("expected a chord"),
    }
}

#[test]
fn play_chord_refuses_a_scalar() {
    let core = Core::new();
    let renderer = Renderer;
    let played = yamlette::orchestra::performer::play_chord(
        &core,
        &renderer,
        Coord::new(0, 0, 0),
        TaggedValue::Int(IntValue::from(1u8)),
        &[],
        Vec::new(),
    );
    assert_eq!(played.err(), Some(yamlette::orchestra::performer::PlayError::NotCollection));
}

#[test]
fn finish_hands_the_music_out_once_every_volume_is_flat() {
    let renderer = Renderer;
    let mut volumes: Vec<Volume> = Vec::new();
    let mut flush = false;
    assert!(matches!(
        yamlette::orchestra::conductor::finish(&renderer, &mut volumes, &mut flush, 0),
        yamlette::orchestra::conductor::Finale::Pending
    ));
    let mut num: usize = 0;
    take_hint(&mut volumes, &mut num, &mut flush, Hint::Volumes(1));
    take_hint(&mut volumes, &mut num, &mut flush, Hint::VolumeNext);
    assert!(matches!(
        yamlette::orchestra::conductor::finish(&renderer, &mut volumes, &mut flush, 0),
        yamlette::orchestra::conductor::Finale::Pending
    ));
    flush = true;
    assert!(matches!(
        yamlette::orchestra::conductor::finish(&renderer, &mut volumes, &mut flush, 0),
        yamlette::orchestra::conductor::Finale::Unfinished
    ));
    assert!(flush && volumes.len() == 1);
    match yamlette::orchestra::conductor::finish(&renderer, &mut volumes, &mut flush, 1) {
        yamlette::orchestra::conductor::Finale::Music(m) => assert!(m.is_empty()),
        _ => panic!("expected the music"),
    }
    assert!(!flush && volumes.is_empty());
}
