use yamlette::model::yaml::str::StrValue;
use yamlette::model::{Rope, TaggedValue};
use yamlette::orchestra::conductor::{
    next_gesture, play_to_volume, take_hint, take_value, Coord, Gesture, Hint, Record, Signal, Volume, VolumeStyle,
};
use yamlette::model::Renderer;
use yamlette::orchestra::performer::{style_rope, Play};

fn value() -> TaggedValue {
    TaggedValue::Str(StrValue::from("v".to_string()))
}

fn style_of(g: Option<Gesture>) -> Option<(usize, VolumeStyle)> {
    match g {
        Some(Gesture::Style(c, s)) => Some((c.idx, s)),
        _ => None,
    }
}

#[test]
fn record_tracks_its_state() {
    let mut r = Record::new(2);
    assert_eq!(r.level, 2);
    assert!(!r.is_done());
    assert!(r.is_notready_or_zipped_or_borrowed());
    r.set_play(Play::Legato(Coord::new(0, 0, 2), value()));
    assert!(r.is_done() && r.is_legato() && !r.is_chord());
    r.mark_zip_ready();
    assert!(!r.is_notready_or_zipped_or_borrowed());
    assert!(r.is_notready_or_notchordlegato_or_borrowed());
    let lent = r.borrow();
    assert!(matches!(lent, Play::Legato(_, _)));
    assert!(r.is_notready_or_zipped_or_borrowed());
    r.set_play(Play::Chord(Coord::new(0, 0, 2), Rope::Empty, 3));
    assert!(r.is_legato() && r.is_chord());
    assert!(!r.is_notready_or_notchordlegato_or_borrowed());
    assert_eq!(r.get_rope().len(), 0);
    let taken = r.take();
    assert_eq!(taken.bytes_len(), 3);
    assert!(r.is_zipped());
}

#[test]
fn volume_styles_and_sizes() {
    let mut v = Volume::new(0);
    assert!(!v.initialized());
    v.set_directive_yaml(true);
    v.init(2, false);
    assert!(v.initialized());
    assert_eq!(v.size(), 5);
    assert_eq!(style_of(v.style()), Some((0, VolumeStyle::Yaml)));
    assert_eq!(style_of(v.style()), Some((1, VolumeStyle::TopBorder)));
    assert!(v.style().is_none());
    assert_eq!(v.zero_level_nodes(), 2);
}

#[test]
fn volume_explicit_no_bottom_border() {
    let mut v = Volume::new(3);
    v.set_border_top(true);
    v.set_border_bot(false);
    v.init(1, true);
    assert_eq!(v.size(), 2);
    assert_eq!(style_of(v.style()), Some((0, VolumeStyle::TopBorder)));
    assert!(v.style().is_none());
}

#[test]
fn volume_plays_collection_with_its_items() {
    let mut v = Volume::new(0);
    v.set_directive_yaml(true);
    v.init(2, false);
    v.style();
    v.style();
    v.push(Record::new(0));
    v.push(Record::new(1));
    assert_eq!(style_of(v.style()), Some((4, VolumeStyle::BotBorder)));
    assert_eq!(v.len(), 5);

    v.play(Play::Note(Coord::new(0, 0, 0), Rope::Empty, 10));
    v.play(Play::Note(Coord::new(0, 1, 0), Rope::Empty, 4));
    v.play(Play::Legato(Coord::new(0, 2, 0), value()));
    v.play(Play::Note(Coord::new(0, 3, 1), Rope::Empty, 0));
    v.play(Play::Note(Coord::new(0, 4, 0), Rope::Empty, 4));
    assert_eq!(v.bytes_len(), 18);

    match v.flatten() {
        Some(Gesture::Chord(c, _, ropes)) => {
            assert_eq!(c.idx, 2);
            assert_eq!(ropes.len(), 1);
        }
        _ => panic!("no chord"),
    }
    assert!(v.records()[3].is_zipped());
    assert!(v.flatten().is_none());
    assert!(!v.is_flat());

    v.play(Play::Chord(Coord::new(0, 2, 0), Rope::Empty, 6));
    assert_eq!(v.bytes_len(), 24);
    assert!(v.flatten().is_none());
    assert!(v.is_flat());
    assert!(v.flatten().is_none());
}

#[test]
fn volume_last_record_collection() {
    let mut v = Volume::new(0);
    v.init(1, false);
    v.push(Record::new(0));
    v.play(Play::Legato(Coord::new(0, 0, 0), value()));
    match v.flatten() {
        Some(Gesture::Chord(c, _, ropes)) => {
            assert_eq!(c.idx, 0);
            assert!(ropes.is_empty());
        }
        _ => panic!("no chord"),
    }
}

#[test]
fn play_accessors() {
    let p = Play::Note(Coord::new(1, 2, 3), Rope::Empty, 9);
    assert_eq!(*p.get_coord(), Coord::new(1, 2, 3));
    assert_eq!(p.bytes_len(), 9);
    assert_eq!(Play::Rendered.bytes_len(), 0);
    let (c, _) = Play::Legato(Coord::new(0, 1, 0), value()).unpack_legato_coord_n_val();
    assert_eq!(c.idx, 1);
    assert_eq!(Play::Chord(Coord::new(0, 0, 0), Rope::Empty, 1).unpack_rope().len(), 0);
}

#[test]
fn style_ropes_render() {
    let r = Renderer;
    assert_eq!(style_rope(VolumeStyle::Yaml, (1, 2), &None).render(&r), b"%YAML 1.2\n".to_vec());
    assert_eq!(style_rope(VolumeStyle::Yaml, (1, 1), &None).render(&r), b"%YAML 1.1\n".to_vec());
    let tags = Some(vec![("!e!".to_string(), "tag:example.com,2015:".to_string())]);
    assert_eq!(style_rope(VolumeStyle::Tags, (1, 2), &tags).render(&r), b"%TAG !e! tag:example.com,2015:\n".to_vec());
    assert!(style_rope(VolumeStyle::Tags, (1, 2), &None).render(&r).is_empty());
    assert_eq!(style_rope(VolumeStyle::TopBorder, (1, 2), &None).render(&r), b"---\n".to_vec());
    assert_eq!(style_rope(VolumeStyle::BotBorder, (1, 2), &None).render(&r), b"...\n".to_vec());
}

#[test]
fn conductor_steps_through_a_document() {
    let mut volumes: Vec<Volume> = Vec::new();
    let mut vols_num: usize = 0;
    let mut flush = false;
    assert!(matches!(take_hint(&mut volumes, &mut vols_num, &mut flush, Hint::Volumes(1)), Some(Signal::Volumes(1))));
    assert_eq!(vols_num, 1);
    assert!(take_hint(&mut volumes, &mut vols_num, &mut flush, Hint::VolumeNext).is_none());
    assert_eq!(volumes.len(), 1);
    take_hint(&mut volumes, &mut vols_num, &mut flush, Hint::DirectiveYaml(true));
    assert!(matches!(
        take_hint(&mut volumes, &mut vols_num, &mut flush, Hint::VolumeSize(1)),
        Some(Signal::VolumeTags(None))
    ));
    assert_eq!(volumes[0].size(), 4);

    assert_eq!(style_of(next_gesture(&mut volumes).0), Some((0, VolumeStyle::Yaml)));
    assert_eq!(style_of(next_gesture(&mut volumes).0), Some((1, VolumeStyle::TopBorder)));
    let (g, flats) = next_gesture(&mut volumes);
    assert!(g.is_none());
    assert_eq!(flats, 0);

    match take_value(&mut volumes, 0, value()) {
        Gesture::Value(c, _) => assert_eq!(c, Coord::new(0, 2, 0)),
        _ => panic!("not a value"),
    }
    assert_eq!(style_of(next_gesture(&mut volumes).0), Some((3, VolumeStyle::BotBorder)));
    for i in 0..4 {
        play_to_volume(&mut volumes, Play::Note(Coord::new(0, i, 0), Rope::Empty, 4));
    }
    assert_eq!(volumes[0].bytes_len(), 16);
    let (g, flats) = next_gesture(&mut volumes);
    assert!(g.is_none());
    assert_eq!(flats, 1);
    assert!(volumes[0].is_flat());

    assert!(take_hint(&mut volumes, &mut vols_num, &mut flush, Hint::TheEnd).is_none());
    assert!(flush);
}
