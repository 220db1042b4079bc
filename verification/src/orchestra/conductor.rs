//! The conductor's bookkeeping: where played values stand, what each
//! record of a volume holds, and when the items of a collection are ready
//! to be played with it.
use vstd::prelude::*;

use crate::model::{Renderer, Rope, TaggedValue};
use crate::orchestra::performer::{play_bytes_len, play_rope, Play};

verus! {

/// Where a value stands: its volume, its index within the volume, and its
/// level within the tree.
#[derive(Clone, Copy, Debug, PartialEq, Eq, Structural)]
pub struct Coord {
    pub vol: usize,
    pub idx: usize,
    pub lvl: usize,
}

impl Coord {
    pub fn new(vol: usize, idx: usize, lvl: usize) -> (r: Coord)
        ensures
            r == (Coord { vol, idx, lvl }),
    {
        Coord { vol, idx, lvl }
    }
}

/// What a volume is written with: the `%YAML` directive, the `%TAG`
/// directives, the border before the document, the border after it.
#[derive(Copy, Clone, Debug, PartialEq, Eq, Structural)]
pub enum VolumeStyle {
    Yaml,
    Tags,
    TopBorder,
    BotBorder,
}

/// What a conductor asks of a performer: to look for a signal, to play a
/// collection with the ropes of its items, to play a value, or to write a
/// volume's directive or border.
#[derive(Debug)]
pub enum Gesture {
    LookForSignal,
    Chord(Coord, TaggedValue, Vec<Rope>),
    Value(Coord, TaggedValue),
    Style(Coord, VolumeStyle),
}

/// The state of a record: played, played as a collection still waiting
/// for its items (legato), played with its items (chord), ready to be
/// zipped into its parent, zipped, lent out to be played as a chord.
#[derive(Clone, Copy, Debug, PartialEq, Eq, Structural)]
pub struct RecordState {
    pub done: bool,
    pub legato: bool,
    pub chord: bool,
    pub zip_ready: bool,
    pub zipped: bool,
    pub borrowed: bool,
}

/// The state of a record with nothing played.
pub open spec fn fresh_state() -> RecordState {
    RecordState { done: false, legato: false, chord: false, zip_ready: false, zipped: false, borrowed: false }
}

/// A record of a volume: the level of its value and what was played for it.
#[derive(Debug)]
pub struct Record {
    pub level: usize,
    state: RecordState,
    legatos_link: usize,
    play: Option<Play>,
}

/// What a record holds: the level of its value, its state, where it stands
/// among the volume's collections, and what was played for it while it
/// holds that.
pub struct RecordView {
    pub level: usize,
    pub state: RecordState,
    pub link: usize,
    pub play: Option<Play>,
}

impl View for Record {
    type V = RecordView;

    closed spec fn view(&self) -> RecordView {
        RecordView { level: self.level, state: self.state, link: self.legatos_link, play: self.play }
    }
}

/// Not played and ready to be zipped, not zipped, not lent out.
pub open spec fn notready_or_zipped_or_borrowed(s: RecordState) -> bool {
    !(s.done && s.zip_ready && !s.zipped && !s.borrowed)
}

/// Not played and ready to be zipped, or lent out, or a collection still
/// waiting for its items.
pub open spec fn notready_or_notchordlegato_or_borrowed(s: RecordState) -> bool {
    !(s.done && s.zip_ready && !s.borrowed && s.legato == s.chord)
}

/// The record, ready to be zipped.
pub open spec fn zip_ready(r: RecordView) -> RecordView {
    RecordView { state: RecordState { zip_ready: true, ..r.state }, ..r }
}

impl Record {
    /// A record at `level`, with nothing played.
    pub fn new(level: usize) -> (r: Record)
        ensures
            r@ == (RecordView { level: level, state: fresh_state(), link: 0, play: None }),
    {
        Record { level: level, state: fresh_state_exec(), legatos_link: 0, play: None }
    }

    /// Holds what was played: the record is done, a legato or a chord as
    /// the play is, and no longer lent out.
    pub fn set_play(&mut self, play: Play)
        ensures
            final(self)@ == (RecordView {
                state: RecordState {
                    done: true,
                    legato: old(self)@.state.legato || play is Legato,
                    chord: old(self)@.state.chord || play is Chord,
                    borrowed: false,
                    ..old(self)@.state
                },
                play: Some(play),
                ..old(self)@
            }),
    {
        let legato = self.state.legato || matches!(play, Play::Legato(_, _));
        let chord = self.state.chord || matches!(play, Play::Chord(_, _, _));
        self.play = Some(play);
        self.state = RecordState { done: true, legato, chord, borrowed: false, ..self.state };
    }

    /// The rope played for the record.
    pub fn get_rope(&self) -> (r: &Rope)
        requires
            self@.play matches Some(p) && (p is Note || p is Chord),
        ensures
            *r == play_rope(self@.play->0),
    {
        match &self.play {
            Some(p) => p.get_rope(),
            None => {
                assert(false);
                unreached()
            },
        }
    }

    /// Marks the record ready to be zipped.
    pub fn mark_zip_ready(&mut self)
        ensures
            final(self)@ == zip_ready(old(self)@),
    {
        self.state = RecordState { zip_ready: true, ..self.state };
    }

    /// Takes what was played out, to be zipped into its parent.
    pub fn take(&mut self) -> (r: Play)
        requires
            old(self)@.play is Some,
            !(old(self)@.state.legato && !old(self)@.state.chord),
        ensures
            final(self)@ == (RecordView {
                state: RecordState { zipped: true, ..old(self)@.state },
                play: None,
                ..old(self)@
            }),
            Some(r) == old(self)@.play,
    {
        self.state = RecordState { zipped: true, ..self.state };
        match self.play.take() {
            Some(p) => p,
            None => {
                assert(false);
                unreached()
            },
        }
    }

    /// Lends what was played out, a collection to be played with its items.
    pub fn borrow(&mut self) -> (r: Play)
        requires
            old(self)@.play is Some,
            old(self)@.state.legato,
        ensures
            final(self)@ == (RecordView {
                state: RecordState { borrowed: true, ..old(self)@.state },
                play: None,
                ..old(self)@
            }),
            Some(r) == old(self)@.play,
    {
        self.state = RecordState { borrowed: true, ..self.state };
        match self.play.take() {
            Some(p) => p,
            None => {
                assert(false);
                unreached()
            },
        }
    }

    /// What was played for the record, where it still holds that.
    pub fn into_play(self) -> (r: Option<Play>)
        ensures
            r == self@.play,
    {
        self.play
    }

    pub fn is_done(&self) -> (r: bool)
        ensures
            r == self@.state.done,
    {
        self.state.done
    }

    pub fn is_legato(&self) -> (r: bool)
        ensures
            r == self@.state.legato,
    {
        self.state.legato
    }

    pub fn is_chord(&self) -> (r: bool)
        ensures
            r == self@.state.chord,
    {
        self.state.chord
    }

    pub fn is_zipped(&self) -> (r: bool)
        ensures
            r == self@.state.zipped,
    {
        self.state.zipped
    }

    /// See `notready_or_zipped_or_borrowed`.
    pub fn is_notready_or_zipped_or_borrowed(&self) -> (r: bool)
        ensures
            r == notready_or_zipped_or_borrowed(self@.state),
    {
        !(self.state.done && self.state.zip_ready && !self.state.zipped && !self.state.borrowed)
    }

    /// See `notready_or_notchordlegato_or_borrowed`.
    pub fn is_notready_or_notchordlegato_or_borrowed(&self) -> (r: bool)
        ensures
            r == notready_or_notchordlegato_or_borrowed(self@.state),
    {
        !(self.state.done && self.state.zip_ready && !self.state.borrowed && self.state.legato == self.state.chord)
    }
}

fn fresh_state_exec() -> (r: RecordState)
    ensures
        r == fresh_state(),
{
    RecordState { done: false, legato: false, chord: false, zip_ready: false, zipped: false, borrowed: false }
}

/// The directives and borders of a volume: the `%YAML` directive, the
/// `%TAG` directives, the border before the document, the border after it,
/// and the border after it explicitly left out.
#[derive(Clone, Copy, Debug, PartialEq, Eq, Structural)]
pub struct VolumeStyles {
    pub dir_yaml: bool,
    pub dir_tags: bool,
    pub top_border: bool,
    pub bot_border: bool,
    pub bot_border_explicit_no: bool,
}

/// No directive and no border.
pub open spec fn no_styles() -> VolumeStyles {
    VolumeStyles { dir_yaml: false, dir_tags: false, top_border: false, bot_border: false, bot_border_explicit_no: false }
}

fn no_styles_exec() -> (r: VolumeStyles)
    ensures
        r == no_styles(),
{
    VolumeStyles { dir_yaml: false, dir_tags: false, top_border: false, bot_border: false, bot_border_explicit_no: false }
}

/// The styles a volume is written with once its size is known: a `%YAML`
/// directive or `%TAG` directives call for the border before, a preferred
/// border after is taken, and the border before calls for the one after,
/// but where it was explicitly left out.
pub open spec fn init_styles(s: VolumeStyles, tags: bool, prefer_bot_border: bool) -> VolumeStyles {
    let top = s.top_border || s.dir_yaml || tags;
    let dir_tags = s.dir_tags || tags;
    if s.bot_border_explicit_no {
        VolumeStyles { dir_tags, top_border: top, bot_border: false, bot_border_explicit_no: false, ..s }
    } else {
        VolumeStyles { dir_tags, top_border: top, bot_border: s.bot_border || prefer_bot_border || top, ..s }
    }
}

/// How many records the directives and borders take.
pub open spec fn styles_count(s: VolumeStyles) -> nat {
    (if s.dir_yaml { 1nat } else { 0nat }) + (if s.dir_tags { 1nat } else { 0nat }) + (if s.top_border { 1nat } else { 0nat })
        + (if s.bot_border { 1nat } else { 0nat })
}

/// A volume as the conductor keeps it.
#[derive(Debug)]
pub struct Volume {
    styles: VolumeStyles,
    styled: VolumeStyles,
    init: bool,
    flat: bool,
    idx: usize,
    size: usize,
    real_records: usize,
    bytes_len: usize,
    zero_level_nodes: usize,
    legatos: Vec<(usize, bool)>,
    records: Vec<Record>,
    tags: Option<Vec<(String, String)>>,
}

/// What a volume holds: the styles asked for and those written, whether
/// its size is known, whether all its collections were played, its index,
/// its size, how many records were played, the length of the bytes played
/// at the top level, how many records stand at the top level, the
/// collections played (by record, and whether played with their items),
/// the records, and the `%TAG` directives.
pub struct VolumeState {
    pub styles: VolumeStyles,
    pub styled: VolumeStyles,
    pub init: bool,
    pub flat: bool,
    pub idx: usize,
    pub size: usize,
    pub real_records: usize,
    pub bytes_len: usize,
    pub zero_level_nodes: usize,
    pub legatos: Seq<(usize, bool)>,
    pub records: Seq<RecordView>,
    pub tags: Option<Seq<(String, String)>>,
}

impl View for Volume {
    type V = VolumeState;

    closed spec fn view(&self) -> VolumeState {
        VolumeState {
            styles: self.styles,
            styled: self.styled,
            init: self.init,
            flat: self.flat,
            idx: self.idx,
            size: self.size,
            real_records: self.real_records,
            bytes_len: self.bytes_len,
            zero_level_nodes: self.zero_level_nodes,
            legatos: self.legatos@,
            records: self.records@.map_values(|r: Record| r@),
            tags: match self.tags {
                Some(t) => Some(t@),
                None => None,
            },
        }
    }
}

/// A record holds what was played for it consistently with its state: a
/// collection waiting for its items holds a legato, a value without items
/// a note, a collection played with its items a chord; what is played and
/// neither zipped nor lent out is held; nothing is marked before it is
/// played; a record lent out is a collection whose entry says it waits.
pub open spec fn record_ok(r: RecordView, i: int, legatos: Seq<(usize, bool)>) -> bool {
    &&& r.play matches Some(p) ==> {
        &&& r.state.done
        &&& !(p is Rendered)
        &&& p is Legato ==> r.state.legato && !r.state.chord
        &&& p is Note ==> !r.state.legato && !r.state.chord
        &&& p is Chord ==> r.state.chord
    }
    &&& r.state.done && !r.state.zipped && !r.state.borrowed ==> r.play is Some
    &&& !r.state.done ==> !r.state.legato && !r.state.chord && !r.state.zipped && !r.state.borrowed
    &&& r.state.borrowed ==> r.state.legato && r.state.done && r.link < legatos.len() && legatos[r.link as int].0 == i
        && !legatos[r.link as int].1
}

/// Each collection's entry points at a played collection record that
/// points back, and one still waiting for its items holds a legato or
/// nothing.
pub open spec fn entry_ok(legatos: Seq<(usize, bool)>, records: Seq<RecordView>, k: int) -> bool {
    let (i, played) = legatos[k];
    &&& i < records.len()
    &&& records[i as int].state.legato
    &&& records[i as int].state.done
    &&& records[i as int].link == k
    &&& !played ==> !records[i as int].state.chord
}

/// The collections' entries and the records agree (see `record_ok`,
/// `entry_ok`).
pub open spec fn links_ok(legatos: Seq<(usize, bool)>, records: Seq<RecordView>) -> bool {
    &&& forall|k: int| 0 <= k < legatos.len() ==> #[trigger] entry_ok(legatos, records, k)
    &&& forall|i: int| 0 <= i < records.len() ==> #[trigger] record_ok(records[i], i, legatos)
}

/// The bookkeeping of a volume is consistent (see `links_ok`).
pub open spec fn volume_wf(v: VolumeState) -> bool {
    links_ok(v.legatos, v.records)
}

/// Marking records ready to be zipped, from `j` back: those deeper than
/// `level`, and the first one at `level`, where no shallower one comes
/// first.
pub open spec fn mark_back(recs: Seq<RecordView>, level: usize, j: int) -> Seq<RecordView>
    decreases j + 1,
{
    if j < 0 || j >= recs.len() {
        recs
    } else if recs[j].level > level {
        mark_back(recs.update(j, zip_ready(recs[j])), level, j - 1)
    } else if recs[j].level == level {
        recs.update(j, zip_ready(recs[j]))
    } else {
        recs
    }
}

/// The records after a record was added: with the volume full, every
/// record back to the last one at the top level is ready to be zipped;
/// otherwise, where the last record is no deeper than the one before, the
/// records back to the last one at its level are. A single record is
/// marked only when it fills the volume.
pub open spec fn zip_marked(recs: Seq<RecordView>, size: int) -> Seq<RecordView> {
    if recs.len() < 2 {
        if recs.len() == size {
            recs.map_values(|r: RecordView| zip_ready(r))
        } else {
            recs
        }
    } else if recs.len() == size {
        mark_back(recs, 0, recs.len() - 2)
    } else if recs[recs.len() - 2].level < recs.last().level {
        recs
    } else {
        mark_back(recs, recs.last().level, recs.len() - 2)
    }
}

impl Volume {
    /// A volume with index `idx`, with nothing in it.
    pub fn new(idx: usize) -> (r: Volume)
        ensures
            r@ == (VolumeState {
                styles: no_styles(),
                styled: no_styles(),
                init: false,
                flat: false,
                idx: idx,
                size: 0,
                real_records: 0,
                bytes_len: 0,
                zero_level_nodes: 0,
                legatos: Seq::empty(),
                records: Seq::empty(),
                tags: None,
            }),
            volume_wf(r@),
    {
        let r = Volume {
            idx: idx,
            styles: no_styles_exec(),
            styled: no_styles_exec(),
            tags: None,
            size: 0,
            real_records: 0,
            bytes_len: 0,
            zero_level_nodes: 0,
            init: false,
            flat: false,
            legatos: Vec::new(),
            records: Vec::new(),
        };
        assert(r@.records =~= Seq::<RecordView>::empty());
        r
    }

    /// Whether its size is known.
    pub fn initialized(&self) -> (r: bool)
        ensures
            r == self@.init,
    {
        self.init
    }

    /// Whether all its collections were played with their items.
    pub fn is_flat(&self) -> (r: bool)
        ensures
            r == self@.flat,
    {
        self.flat
    }

    /// The length of the bytes played at the top level.
    pub fn bytes_len(&self) -> (r: usize)
        ensures
            r == self@.bytes_len,
    {
        self.bytes_len
    }

    /// How many records stand at the top level.
    pub fn zero_level_nodes(&self) -> (r: usize)
        ensures
            r == self@.zero_level_nodes,
    {
        self.zero_level_nodes
    }

    /// How many records the volume holds once complete.
    pub fn size(&self) -> (r: usize)
        ensures
            r == self@.size,
    {
        self.size
    }

    /// How many records it holds.
    pub fn len(&self) -> (r: usize)
        ensures
            r == self@.records.len(),
    {
        self.records.len()
    }

    /// The records.
    pub fn records(&self) -> (r: &[Record])
        ensures
            r@.map_values(|x: Record| x@) == self@.records,
    {
        self.records.as_slice()
    }

    /// The records, handed out.
    pub fn into_records(self) -> (r: Vec<Record>)
        ensures
            r@.map_values(|x: Record| x@) == self@.records,
    {
        self.records
    }

    /// The `%TAG` directives.
    pub fn tags(&self) -> (r: &Option<Vec<(String, String)>>)
        ensures
            match *r {
                Some(t) => self@.tags == Some(t@),
                None => self@.tags is None,
            },
    {
        &self.tags
    }

    /// Asks for the `%YAML` directive, or not.
    pub fn set_directive_yaml(&mut self, print: bool)
        ensures
            final(self)@ == (VolumeState { styles: VolumeStyles { dir_yaml: print, ..old(self)@.styles }, ..old(self)@ }),
    {
        self.styles = VolumeStyles { dir_yaml: print, ..self.styles };
    }

    /// Asks for the border before the document, or not.
    pub fn set_border_top(&mut self, print: bool)
        ensures
            final(self)@ == (VolumeState { styles: VolumeStyles { top_border: print, ..old(self)@.styles }, ..old(self)@ }),
    {
        self.styles = VolumeStyles { top_border: print, ..self.styles };
    }

    /// Asks for the border after the document, or leaves it out explicitly.
    pub fn set_border_bot(&mut self, print: bool)
        ensures
            final(self)@ == (VolumeState {
                styles: if print {
                    VolumeStyles { bot_border: true, ..old(self)@.styles }
                } else {
                    VolumeStyles { bot_border_explicit_no: true, ..old(self)@.styles }
                },
                ..old(self)@
            }),
    {
        if print {
            self.styles = VolumeStyles { bot_border: true, ..self.styles };
        } else {
            self.styles = VolumeStyles { bot_border_explicit_no: true, ..self.styles };
        }
    }

    /// Sets the `%TAG` directives.
    pub fn set_tags(&mut self, tags: Vec<(String, String)>)
        ensures
            final(self)@ == (VolumeState { tags: Some(tags@), ..old(self)@ }),
    {
        self.tags = Some(tags);
    }

    /// Learns the size: the styles are settled (see `init_styles`), the
    /// size grows by the records they take, and the volume starts empty.
    pub fn init(&mut self, size: usize, prefer_bot_border: bool)
        requires
            size + 4 <= usize::MAX,
        ensures
            final(self)@ == (VolumeState {
                styles: init_styles(old(self)@.styles, old(self)@.tags is Some, prefer_bot_border),
                size: (size + styles_count(init_styles(old(self)@.styles, old(self)@.tags is Some, prefer_bot_border))) as usize,
                init: true,
                legatos: Seq::empty(),
                records: Seq::empty(),
                ..old(self)@
            }),
            volume_wf(final(self)@),
    {
        let mut size = size;
        self.legatos = Vec::with_capacity(size);
        let mut styles = self.styles;
        if styles.dir_yaml {
            styles.top_border = true;
        }
        if self.tags.is_some() {
            styles.dir_tags = true;
            styles.top_border = true;
        }
        if prefer_bot_border {
            styles.bot_border = true;
        }
        if styles.bot_border_explicit_no {
            styles.bot_border = false;
            styles.bot_border_explicit_no = false;
        } else if styles.top_border {
            styles.bot_border = true;
        }
        if styles.dir_yaml {
            size = size + 1;
        }
        if styles.dir_tags {
            size = size + 1;
        }
        if styles.top_border {
            size = size + 1;
        }
        if styles.bot_border {
            size = size + 1;
        }
        self.styles = styles;
        self.records = Vec::with_capacity(size);
        self.size = size;
        self.init = true;
        assert(self@.records =~= Seq::<RecordView>::empty());
    }
}

/// The directive or border the volume writes next: the `%YAML` directive,
/// the `%TAG` directives, the border before, each where asked for and not
/// written yet; the border after only when one record is left to fill the
/// volume.
pub open spec fn style_kind(v: VolumeState) -> Option<VolumeStyle> {
    if v.styles == v.styled {
        None
    } else if v.styles.dir_yaml && !v.styled.dir_yaml {
        Some(VolumeStyle::Yaml)
    } else if v.styles.dir_tags && !v.styled.dir_tags {
        Some(VolumeStyle::Tags)
    } else if v.styles.top_border && !v.styled.top_border {
        Some(VolumeStyle::TopBorder)
    } else if v.records.len() + 1 != v.size {
        None
    } else {
        Some(VolumeStyle::BotBorder)
    }
}

/// Where asking for the next directive or border can find none, though
/// the styles asked for and those written differ.
pub open spec fn style_stuck(v: VolumeState) -> bool {
    style_kind(v) == Some(VolumeStyle::BotBorder) && !(v.styles.bot_border && !v.styled.bot_border)
}

/// The styles written, with one more.
pub open spec fn mark_styled(s: VolumeStyles, k: VolumeStyle) -> VolumeStyles {
    match k {
        VolumeStyle::Yaml => VolumeStyles { dir_yaml: true, ..s },
        VolumeStyle::Tags => VolumeStyles { dir_tags: true, ..s },
        VolumeStyle::TopBorder => VolumeStyles { top_border: true, ..s },
        VolumeStyle::BotBorder => VolumeStyles { bot_border: true, ..s },
    }
}

/// The volume after its directive or border `k` was added (see
/// `Volume::style`).
pub open spec fn styled_state(v: VolumeState, k: VolumeStyle) -> VolumeState {
    if k is BotBorder {
        VolumeState {
            styled: mark_styled(v.styled, k),
            zero_level_nodes: (v.zero_level_nodes + 1) as usize,
            records: zip_marked(v.records.push(top_record()), v.size as int),
            ..v
        }
    } else {
        VolumeState {
            styled: mark_styled(v.styled, k),
            zero_level_nodes: (v.zero_level_nodes + 1) as usize,
            records: v.records.push(zip_ready(top_record())),
            ..v
        }
    }
}

/// A record at the top level with nothing played.
pub open spec fn top_record() -> RecordView {
    RecordView { level: 0, state: fresh_state(), link: 0, play: None }
}

/// Marking records ready to be zipped keeps everything else of them.
proof fn lemma_mark_back_shape(recs: Seq<RecordView>, level: usize, j: int)
    ensures
        mark_back(recs, level, j).len() == recs.len(),
        forall|i: int|
            0 <= i < recs.len() ==> #[trigger] mark_back(recs, level, j)[i] == recs[i] || mark_back(recs, level, j)[i]
                == zip_ready(recs[i]),
    decreases j + 1,
{
    if 0 <= j < recs.len() && recs[j].level > level {
        let next = recs.update(j, zip_ready(recs[j]));
        lemma_mark_back_shape(next, level, j - 1);
        assert forall|i: int| 0 <= i < recs.len() implies #[trigger] mark_back(recs, level, j)[i] == recs[i]
            || mark_back(recs, level, j)[i] == zip_ready(recs[i]) by {
            if i == j {
                assert(zip_ready(next[i]) == zip_ready(recs[i]));
            }
        }
    }
}

proof fn lemma_zip_marked_shape(recs: Seq<RecordView>, size: int)
    ensures
        zip_marked(recs, size).len() == recs.len(),
        forall|i: int|
            0 <= i < recs.len() ==> #[trigger] zip_marked(recs, size)[i] == recs[i] || zip_marked(recs, size)[i]
                == zip_ready(recs[i]),
{
    if recs.len() >= 2 {
        if recs.len() == size {
            lemma_mark_back_shape(recs, 0, recs.len() - 2);
        } else if !(recs[recs.len() - 2].level < recs.last().level) {
            lemma_mark_back_shape(recs, recs.last().level, recs.len() - 2);
        }
    }
}

/// Marking records ready to be zipped keeps the bookkeeping consistent.
proof fn lemma_zip_marked_wf(legatos: Seq<(usize, bool)>, records: Seq<RecordView>, size: int)
    requires
        links_ok(legatos, records),
    ensures
        links_ok(legatos, zip_marked(records, size)),
{
    lemma_zip_marked_shape(records, size);
    let w = zip_marked(records, size);
    assert forall|k: int| 0 <= k < legatos.len() implies #[trigger] entry_ok(legatos, w, k) by {
        assert(entry_ok(legatos, records, k));
        let i = legatos[k].0 as int;
        assert(w[i] == records[i] || w[i] == zip_ready(records[i]));
    }
    assert forall|i: int| 0 <= i < w.len() implies #[trigger] record_ok(w[i], i, legatos) by {
        assert(record_ok(records[i], i, legatos));
        assert(w[i] == records[i] || w[i] == zip_ready(records[i]));
    }
}

impl Volume {
    /// Marks records ready to be zipped after one was added (see
    /// `zip_marked`).
    fn mark_zip_ready(&mut self)
        ensures
            final(self)@ == (VolumeState { records: zip_marked(old(self)@.records, old(self)@.size as int), ..old(self)@ }),
    {
        let ghost orig = self@.records;
        let len = self.records.len();
        if len < 2 {
            if len == self.size {
                let mut i: usize = 0;
                while i < len
                    invariant
                        i <= len,
                        len == self.records@.len(),
                        len == orig.len(),
                        self@ == (VolumeState { records: self@.records, ..old(self)@ }),
                        forall|k: int| 0 <= k < i ==> self@.records[k] == zip_ready(orig[k]),
                        forall|k: int| i <= k < len ==> self@.records[k] == orig[k],
                    decreases len - i,
                {
                    let ghost before = self@.records;
                    self.records[i].mark_zip_ready();
                    assert(self@.records =~= before.update(i as int, zip_ready(before[i as int])));
                    i = i + 1;
                }
                assert(self@.records =~= orig.map_values(|r: RecordView| zip_ready(r)));
            }
            return;
        }
        let mut ptr = len - 1;
        let level = if len == self.size {
            0
        } else {
            let latest = self.records[ptr].level;
            let penult = self.records[ptr - 1].level;
            if penult < latest {
                return;
            }
            latest
        };
        assert(zip_marked(orig, self.size as int) == mark_back(orig, level, len - 2));
        loop
            invariant_except_break
                mark_back(orig, level, len - 2) == mark_back(self@.records, level, ptr - 1),
            invariant
                0 <= ptr < len,
                len == self.records@.len(),
                len == orig.len(),
                self@ == (VolumeState { records: self@.records, ..old(self)@ }),
                self@.records.len() == len,
            ensures
                self@.records == mark_back(orig, level, len - 2),
                self@ == (VolumeState { records: self@.records, ..old(self)@ }),
            decreases ptr,
        {
            if ptr == 0 {
                break;
            }
            ptr = ptr - 1;
            let lv = self.records[ptr].level;
            if lv > level {
                let ghost before = self@.records;
                self.records[ptr].mark_zip_ready();
                assert(self@.records =~= before.update(ptr as int, zip_ready(before[ptr as int])));
            } else if lv == level {
                let ghost before = self@.records;
                self.records[ptr].mark_zip_ready();
                assert(self@.records =~= before.update(ptr as int, zip_ready(before[ptr as int])));
                break;
            } else {
                break;
            }
        }
    }
}

impl Volume {
    /// Adds a record, counts it where it stands at the top level, and marks
    /// records ready to be zipped (see `zip_marked`); a consistent volume
    /// stays so with a record with nothing played.
    pub fn push(&mut self, record: Record)
        requires
            record@.level == 0 ==> old(self)@.zero_level_nodes < usize::MAX,
        ensures
            final(self)@ == (VolumeState {
                zero_level_nodes: (old(self)@.zero_level_nodes + if record@.level == 0 { 1int } else { 0int }) as usize,
                records: zip_marked(old(self)@.records.push(record@), old(self)@.size as int),
                ..old(self)@
            }),
            volume_wf(old(self)@) && record@.state == fresh_state() && record@.play is None ==> volume_wf(final(self)@),
    {
        if record.level == 0 {
            self.zero_level_nodes = self.zero_level_nodes + 1;
        }
        let ghost pushed = record@;
        let ghost before = self@;
        self.records.push(record);
        assert(self@.records =~= before.records.push(pushed));
        proof {
            if volume_wf(old(self)@) && pushed.state == fresh_state() && pushed.play is None {
                lemma_push_wf(before.legatos, before.records, pushed);
                lemma_zip_marked_wf(before.legatos, before.records.push(pushed), before.size as int);
            }
        }
        self.mark_zip_ready();
    }

    /// Writes the next directive or border (see `style_kind`): adds its
    /// record at the top level, ready to be zipped, and asks for it to be
    /// played; the border after the document is added as any record is.
    pub fn style(&mut self) -> (r: Option<Gesture>)
        requires
            !style_stuck(old(self)@),
            old(self)@.zero_level_nodes < usize::MAX,
        ensures
            match style_kind(old(self)@) {
                None => r is None && final(self)@ == old(self)@,
                Some(k) => r == Some(
                    Gesture::Style(Coord { vol: old(self)@.idx, idx: old(self)@.records.len() as usize, lvl: 0 }, k),
                ) && final(self)@ == styled_state(old(self)@, k),
            },
            volume_wf(old(self)@) ==> volume_wf(final(self)@),
    {
        if self.styles == self.styled {
            return None;
        }
        let volume_idx = self.idx;
        let kind = if self.styles.dir_yaml && !self.styled.dir_yaml {
            VolumeStyle::Yaml
        } else if self.styles.dir_tags && !self.styled.dir_tags {
            VolumeStyle::Tags
        } else if self.styles.top_border && !self.styled.top_border {
            VolumeStyle::TopBorder
        } else {
            if self.size == 0 || self.records.len() != self.size - 1 {
                return None;
            }
            self.styled = VolumeStyles { bot_border: true, ..self.styled };
            let coord = Coord::new(volume_idx, self.records.len(), 0);
            self.push(Record::new(0));
            return Some(Gesture::Style(coord, VolumeStyle::BotBorder));
        };
        self.styled = match kind {
            VolumeStyle::Yaml => VolumeStyles { dir_yaml: true, ..self.styled },
            VolumeStyle::Tags => VolumeStyles { dir_tags: true, ..self.styled },
            _ => VolumeStyles { top_border: true, ..self.styled },
        };
        self.zero_level_nodes = self.zero_level_nodes + 1;
        let mut record = Record::new(0);
        record.mark_zip_ready();
        let ghost before = self@;
        let ghost pushed = record@;
        self.records.push(record);
        assert(self@.records =~= before.records.push(pushed));
        proof {
            if volume_wf(old(self)@) {
                lemma_push_wf(before.legatos, before.records, pushed);
            }
        }
        let coord = Coord::new(volume_idx, self.records.len() - 1, 0);
        Some(Gesture::Style(coord, kind))
    }
}

/// A record with nothing played, added, keeps the bookkeeping consistent.
proof fn lemma_push_wf(legatos: Seq<(usize, bool)>, records: Seq<RecordView>, r: RecordView)
    requires
        links_ok(legatos, records),
        r.state.done == false,
        r.state.legato == false,
        r.state.chord == false,
        r.state.zipped == false,
        r.state.borrowed == false,
        r.play is None,
    ensures
        links_ok(legatos, records.push(r)),
{
    let w = records.push(r);
    assert forall|k: int| 0 <= k < legatos.len() implies #[trigger] entry_ok(legatos, w, k) by {
        assert(entry_ok(legatos, records, k));
    }
    assert forall|i: int| 0 <= i < w.len() implies #[trigger] record_ok(w[i], i, legatos) by {
        if i < records.len() {
            assert(record_ok(records[i], i, legatos));
        }
    }
}

/// Where a played value stands.
pub open spec fn play_coord(p: Play) -> Coord {
    match p {
        Play::Legato(c, _) => c,
        Play::Note(c, _, _) => c,
        Play::Chord(c, _, _) => c,
        Play::Rendered => Coord { vol: 0, idx: 0, lvl: 0 },
    }
}

/// The volume after a play for the record it names: the record holds it
/// (see `Record::set_play`), ready to be zipped where it is the volume's
/// last; a collection played first gets an entry, one played with its
/// items has its entry say so; top-level bytes and played records are
/// counted.
pub open spec fn played(v: VolumeState, p: Play) -> VolumeState {
    let i = play_coord(p).idx as int;
    let rec = v.records[i];
    let st0 = if i + 1 == v.size { RecordState { zip_ready: true, ..rec.state } } else { rec.state };
    let st = RecordState {
        done: true,
        legato: st0.legato || p is Legato,
        chord: st0.chord || p is Chord,
        borrowed: false,
        ..st0
    };
    let first_legato = st.legato && !rec.state.done;
    let chorded = st.legato && rec.state.done && st.chord;
    VolumeState {
        bytes_len: (v.bytes_len + if rec.level == 0 { play_bytes_len(p) as int } else { 0 }) as usize,
        real_records: (v.real_records + if rec.state.done { 0int } else { 1int }) as usize,
        legatos: if first_legato {
            v.legatos.push((play_coord(p).idx, false))
        } else if chorded {
            v.legatos.update(rec.link as int, (v.legatos[rec.link as int].0, true))
        } else {
            v.legatos
        },
        records: v.records.update(
            i,
            RecordView { state: st, link: if first_legato { v.legatos.len() as usize } else { rec.link }, play: Some(p), ..rec },
        ),
        ..v
    }
}

/// A play that a consistent volume takes: it names a record of it, and a
/// record already played is only played again as the chord of a
/// collection lent out.
pub open spec fn play_fits(v: VolumeState, p: Play) -> bool {
    let i = play_coord(p).idx as int;
    &&& !(p is Rendered)
    &&& 0 <= i < v.records.len()
    &&& v.records[i].state.done ==> v.records[i].state.borrowed && p is Chord
}

proof fn lemma_played_wf(v: VolumeState, p: Play)
    requires
        volume_wf(v),
        play_fits(v, p),
        v.legatos.len() <= usize::MAX,
    ensures
        volume_wf(played(v, p)),
{
    let i = play_coord(p).idx as int;
    let rec = v.records[i];
    let w = played(v, p);
    assert(record_ok(rec, i, v.legatos));
    let st0 = if i + 1 == v.size { RecordState { zip_ready: true, ..rec.state } } else { rec.state };
    let st = RecordState {
        done: true,
        legato: st0.legato || p is Legato,
        chord: st0.chord || p is Chord,
        borrowed: false,
        ..st0
    };
    let first_legato = st.legato && !rec.state.done;
    let chorded = st.legato && rec.state.done && st.chord;
    assert(w.records[i].state == st);
    assert forall|k: int| 0 <= k < w.legatos.len() implies #[trigger] entry_ok(w.legatos, w.records, k) by {
        if k < v.legatos.len() {
            assert(entry_ok(v.legatos, v.records, k));
            let j = v.legatos[k].0 as int;
            if j == i {
                assert(rec.link == k);
                assert(rec.state.done);
                assert(chorded);
                assert(w.legatos[k] == (v.legatos[k].0, true));
                assert(w.records[i].link == rec.link);
                assert(entry_ok(w.legatos, w.records, k));
            } else {
                assert(w.records[j] == v.records[j]);
                if chorded && k == rec.link {
                    assert(v.legatos[rec.link as int].0 == i);
                }
                assert(w.legatos[k] == v.legatos[k]);
                assert(entry_ok(w.legatos, w.records, k));
            }
        } else {
            assert(first_legato);
            assert(!rec.state.chord && !rec.state.legato);
            assert(w.legatos[k] == (play_coord(p).idx, false));
            assert(w.records[i].link == k);
            assert(entry_ok(w.legatos, w.records, k));
        }
    }
    assert forall|j: int| 0 <= j < w.records.len() implies #[trigger] record_ok(w.records[j], j, w.legatos) by {
        assert(record_ok(v.records[j], j, v.legatos));
        if j != i && v.records[j].state.borrowed {
            let l = v.records[j].link as int;
            if rec.state.done {
                assert(v.legatos[l].0 == j);
                assert(v.legatos[rec.link as int].0 == i);
                assert(l != rec.link);
            }
        }
    }
}

impl Record {
    /// Holds a play as a volume does (see `played`): ready to be zipped
    /// where `last`, linked to `new_link` where it is a collection played
    /// first.
    fn hold(&mut self, play: Play, last: bool, new_link: usize)
        ensures
            ({
                let st0 = if last { RecordState { zip_ready: true, ..old(self)@.state } } else { old(self)@.state };
                let st = RecordState {
                    done: true,
                    legato: st0.legato || play is Legato,
                    chord: st0.chord || play is Chord,
                    borrowed: false,
                    ..st0
                };
                final(self)@ == RecordView {
                    state: st,
                    link: if st.legato && !old(self)@.state.done { new_link } else { old(self)@.link },
                    play: Some(play),
                    ..old(self)@
                }
            }),
    {
        let done = self.state.done;
        if last {
            self.mark_zip_ready();
        }
        self.set_play(play);
        if self.state.legato && !done {
            self.legatos_link = new_link;
        }
    }
}

impl Volume {
    /// Takes a play for the record it names (see `played`).
    pub fn play(&mut self, play: Play)
        requires
            volume_wf(old(self)@),
            play_fits(old(self)@, play),
            old(self)@.records[play_coord(play).idx as int].level == 0 ==> old(self)@.bytes_len + play_bytes_len(play)
                <= usize::MAX,
            !old(self)@.records[play_coord(play).idx as int].state.done ==> old(self)@.real_records < usize::MAX,
        ensures
            final(self)@ == played(old(self)@, play),
            volume_wf(final(self)@),
    {
        let ghost v = self@;
        let idx = play.get_coord().idx;
        assert(self.records@[idx as int]@ == v.records[idx as int]);
        let level = self.records[idx].level;
        let done = self.records[idx].state.done;
        let old_link = self.records[idx].legatos_link;
        let legato = self.records[idx].state.legato || matches!(play, Play::Legato(_, _));
        let chord = self.records[idx].state.chord || matches!(play, Play::Chord(_, _, _));
        if level == 0 {
            self.bytes_len = self.bytes_len + play.bytes_len();
        }
        if !done {
            self.real_records = self.real_records + 1;
        }
        let last = self.size > 0 && idx == self.size - 1;
        let new_link = self.legatos.len();
        let ghost before = self.records@;
        self.records[idx].hold(play, last, new_link);
        proof {
            assert(self.records@ == before.update(idx as int, self.records@[idx as int]));
            assert(self@.records =~= played(v, play).records);
        }
        if legato {
            if !done {
                self.legatos.push((idx, false));
            } else if chord {
                proof {
                    assert(record_ok(v.records[idx as int], idx as int, v.legatos));
                }
                let entry = self.legatos[old_link].0;
                self.legatos.set(old_link, (entry, true));
            }
        }
        proof {
            assert(self@.legatos =~= played(v, play).legatos);
            assert(v.legatos.len() == new_link);
            lemma_played_wf(v, play);
        }
    }
}

/// Where the items of a collection at `level` end, scanning from record
/// `j`: before the first record no deeper than the collection, or after
/// the volume's last record; none where an item before that is not played
/// and ready, is lent out, or is a collection still waiting for its items.
pub open spec fn items_end(recs: Seq<RecordView>, size: int, level: usize, j: int) -> Option<int>
    decreases recs.len() - j,
{
    if j < 0 || j >= recs.len() {
        None
    } else if recs[j].level <= level {
        Some(j)
    } else if notready_or_notchordlegato_or_borrowed(recs[j].state) {
        None
    } else if j == size - 1 {
        Some(j + 1)
    } else {
        items_end(recs, size, level, j + 1)
    }
}

/// The first collection, from entry `k` on, that can be played with its
/// items: one still waiting, played and ready, neither zipped nor lent
/// out, and either the volume's last record or one whose items are all
/// ready (see `items_end`); with where its items end.
pub open spec fn flatten_target(v: VolumeState, k: int) -> Option<(int, int)>
    decreases v.legatos.len() - k,
{
    if k < 0 || k >= v.legatos.len() {
        None
    } else {
        let ri = v.legatos[k].0 as int;
        if v.legatos[k].1 || notready_or_zipped_or_borrowed(v.records[ri].state) {
            flatten_target(v, k + 1)
        } else if ri == v.records.len() - 1 {
            Some((ri, ri + 1))
        } else {
            match items_end(v.records, v.size as int, v.records[ri].level, ri + 1) {
                Some(e) => Some((ri, e)),
                None => flatten_target(v, k + 1),
            }
        }
    }
}

/// The ropes of the records after `a` and before `e` that are not zipped
/// yet, in order.
pub open spec fn ropes_in(recs: Seq<RecordView>, a: int, e: int) -> Seq<Rope>
    decreases e - a,
{
    if e <= a + 1 {
        Seq::empty()
    } else {
        ropes_in(recs, a, e - 1) + if recs[e - 1].state.zipped {
            Seq::<Rope>::empty()
        } else {
            seq![play_rope(recs[e - 1].play->0)]
        }
    }
}

/// The records after `a` and before `e` that are not zipped yet, zipped,
/// their plays taken.
pub open spec fn taken(recs: Seq<RecordView>, a: int, e: int) -> Seq<RecordView> {
    Seq::new(
        recs.len(),
        |i: int|
            if a < i < e && !recs[i].state.zipped {
                RecordView { state: RecordState { zipped: true, ..recs[i].state }, play: None, ..recs[i] }
            } else {
                recs[i]
            },
    )
}

/// The record, lent out, its play taken.
pub open spec fn lent(r: RecordView) -> RecordView {
    RecordView { state: RecordState { borrowed: true, ..r.state }, play: None, ..r }
}

/// The volume after the collection at `ri` was lent out with its items up
/// to `e` taken (see `Volume::flatten`).
pub open spec fn chord_state(v: VolumeState, ri: int, e: int) -> VolumeState {
    VolumeState { records: taken(v.records, ri, e).update(ri, lent(v.records[ri])), ..v }
}

/// The volume when no collection can be played: flat where every
/// collection was played with its items and every record was played.
pub open spec fn flat_state(v: VolumeState) -> VolumeState {
    if all_chords(v.legatos) && v.real_records == v.size {
        VolumeState { flat: true, legatos: Seq::empty(), ..v }
    } else {
        v
    }
}

/// Every collection was played with its items.
pub open spec fn all_chords(l: Seq<(usize, bool)>) -> bool {
    forall|k: int| 0 <= k < l.len() ==> #[trigger] l[k].1
}

/// The items found by `items_end` are deeper than the collection and
/// ready, and end within the records.
proof fn lemma_items_end(recs: Seq<RecordView>, size: int, level: usize, j: int)
    requires
        0 <= j,
    ensures
        items_end(recs, size, level, j) matches Some(e) ==> j <= e <= recs.len() && forall|m: int|
            j <= m < e ==> (#[trigger] recs[m]).level > level && !notready_or_notchordlegato_or_borrowed(recs[m].state),
    decreases recs.len() - j,
{
    if j < recs.len() && !(recs[j].level <= level) && !notready_or_notchordlegato_or_borrowed(recs[j].state) && j
        != size - 1 {
        lemma_items_end(recs, size, level, j + 1);
        if let Some(e) = items_end(recs, size, level, j) {
            assert forall|m: int| j <= m < e implies (#[trigger] recs[m]).level > level
                && !notready_or_notchordlegato_or_borrowed(recs[m].state) by {
                if m > j {
                    assert(j + 1 <= m < e);
                }
            }
        }
    }
}

/// What `flatten_target` finds is a waiting, ready collection's entry,
/// with items that are deeper and ready.
proof fn lemma_flatten_target(v: VolumeState, k: int)
    requires
        volume_wf(v),
        0 <= k,
    ensures
        flatten_target(v, k) matches Some((ri, e)) ==> {
            &&& exists|m: int| k <= m < v.legatos.len() && #[trigger] v.legatos[m].0 == ri && !v.legatos[m].1
            &&& 0 <= ri < e <= v.records.len()
            &&& !notready_or_zipped_or_borrowed(v.records[ri].state)
            &&& forall|x: int|
                ri < x < e ==> (#[trigger] v.records[x]).level > v.records[ri].level
                    && !notready_or_notchordlegato_or_borrowed(v.records[x].state)
        },
    decreases v.legatos.len() - k,
{
    if k < v.legatos.len() {
        assert(entry_ok(v.legatos, v.records, k));
        let ri = v.legatos[k].0 as int;
        if v.legatos[k].1 || notready_or_zipped_or_borrowed(v.records[ri].state) {
            lemma_flatten_target(v, k + 1);
        } else if ri == v.records.len() - 1 {
            assert(v.legatos[k].0 == ri && !v.legatos[k].1);
        } else {
            lemma_items_end(v.records, v.size as int, v.records[ri].level, ri + 1);
            if items_end(v.records, v.size as int, v.records[ri].level, ri + 1) is None {
                lemma_flatten_target(v, k + 1);
            } else {
                assert(v.legatos[k].0 == ri && !v.legatos[k].1);
            }
        }
    }
}

/// The ropes between `a` and `e` depend on the records between them only.
proof fn lemma_ropes_in_frame(r1: Seq<RecordView>, r2: Seq<RecordView>, a: int, e: int)
    requires
        forall|x: int| a < x < e ==> r1[x] == r2[x],
    ensures
        ropes_in(r1, a, e) == ropes_in(r2, a, e),
    decreases e - a,
{
    if e > a + 1 {
        lemma_ropes_in_frame(r1, r2, a, e - 1);
    }
}

/// Lending the collection out and taking its items keeps the bookkeeping
/// consistent.
proof fn lemma_flatten_wf(v: VolumeState, ri: int, e: int, m: int)
    requires
        volume_wf(v),
        0 <= m < v.legatos.len(),
        v.legatos[m].0 == ri,
        !v.legatos[m].1,
        0 <= ri < e <= v.records.len(),
        !notready_or_zipped_or_borrowed(v.records[ri].state),
        forall|x: int| ri < x < e ==> !notready_or_notchordlegato_or_borrowed((#[trigger] v.records[x]).state),
    ensures
        links_ok(v.legatos, taken(v.records, ri, e).update(ri, lent(v.records[ri]))),
{
    let w = taken(v.records, ri, e).update(ri, lent(v.records[ri]));
    assert(entry_ok(v.legatos, v.records, m));
    assert forall|k: int| 0 <= k < v.legatos.len() implies #[trigger] entry_ok(v.legatos, w, k) by {
        assert(entry_ok(v.legatos, v.records, k));
    }
    assert forall|x: int| 0 <= x < w.len() implies #[trigger] record_ok(w[x], x, v.legatos) by {
        assert(record_ok(v.records[x], x, v.legatos));
        if ri < x < e {
            assert(!notready_or_notchordlegato_or_borrowed(v.records[x].state));
        }
    }
}

/// With every collection played with its items, none is lent out, and the
/// entries may go.
proof fn lemma_flat_wf(v: VolumeState)
    requires
        volume_wf(v),
        all_chords(v.legatos),
    ensures
        links_ok(Seq::empty(), v.records),
{
    assert forall|x: int| 0 <= x < v.records.len() implies #[trigger] record_ok(v.records[x], x, Seq::empty()) by {
        assert(record_ok(v.records[x], x, v.legatos));
        if v.records[x].state.borrowed {
            assert(v.legatos[v.records[x].link as int].1);
        }
    }
}

impl Volume {
    /// Scans the items of the collection at `ri` (see `items_end`): where
    /// they end, and how many of them are not zipped yet.
    fn scan_items(&self, ri: usize, level: usize) -> (r: Option<(usize, usize)>)
        requires
            ri < self@.records.len(),
        ensures
            match items_end(self@.records, self@.size as int, level, ri + 1) {
                Some(e) => r == Some((e as usize, ropes_in(self@.records, ri as int, e).len() as usize)),
                None => r is None,
            },
    {
        let ghost recs = self@.records;
        let len = self.records.len();
        let mut est: usize = 0;
        let mut idx = ri + 1;
        while idx < len
            invariant
                recs == self@.records,
                len == recs.len(),
                ri < idx <= len,
                items_end(recs, self@.size as int, level, ri + 1) == items_end(recs, self@.size as int, level, idx as int),
                est == ropes_in(recs, ri as int, idx as int).len(),
                est <= idx - ri,
            decreases len - idx,
        {
            assert(self.records@[idx as int]@ == recs[idx as int]);
            let record = &self.records[idx];
            if record.level <= level {
                return Some((idx, est));
            }
            if record.is_notready_or_notchordlegato_or_borrowed() {
                return None;
            }
            if !record.is_zipped() {
                est = est + 1;
            }
            if self.size > 0 && idx == self.size - 1 {
                return Some((idx + 1, est));
            }
            idx = idx + 1;
        }
        None
    }

    /// Takes the ropes of the records after `ri` and before `e` that are
    /// not zipped yet, zipping them (see `ropes_in`, `taken`).
    fn take_ropes(&mut self, ri: usize, e: usize, est: usize) -> (r: Vec<Rope>)
        requires
            ri < e <= old(self)@.records.len(),
            forall|x: int|
                ri < x < e ==> !notready_or_notchordlegato_or_borrowed(#[trigger] old(self)@.records[x].state)
                    && record_ok(old(self)@.records[x], x, old(self)@.legatos),
        ensures
            r@ == ropes_in(old(self)@.records, ri as int, e as int),
            final(self)@ == (VolumeState { records: taken(old(self)@.records, ri as int, e as int), ..old(self)@ }),
    {
        let ghost orig = self@.records;
        let mut ropes: Vec<Rope> = Vec::with_capacity(est);
        let mut idx = ri + 1;
        assert(taken(orig, ri as int, idx as int) =~= orig);
        while idx < e
            invariant
                ri < idx <= e,
                e <= orig.len(),
                self.records@.len() == orig.len(),
                forall|x: int|
                    ri < x < e ==> !notready_or_notchordlegato_or_borrowed(#[trigger] orig[x].state) && record_ok(
                        orig[x],
                        x,
                        old(self)@.legatos,
                    ),
                self@ == (VolumeState { records: taken(orig, ri as int, idx as int), ..old(self)@ }),
                ropes@ == ropes_in(orig, ri as int, idx as int),
            decreases e - idx,
        {
            assert(self.records@[idx as int]@ == taken(orig, ri as int, idx as int)[idx as int]);
            assert(!notready_or_notchordlegato_or_borrowed(orig[idx as int].state));
            assert(record_ok(orig[idx as int], idx as int, old(self)@.legatos));
            let ghost before = self.records@;
            if !self.records[idx].is_zipped() {
                let play = self.records[idx].take();
                proof {
                    assert(self.records@ == before.update(idx as int, self.records@[idx as int]));
                }
                ropes.push(play.unpack_rope());
            }
            proof {
                assert forall|j: int| 0 <= j < orig.len() implies self.records@[j]@ == taken(
                    orig,
                    ri as int,
                    idx + 1,
                )[j] by {
                    if j != idx {
                        assert(self.records@[j] == before[j]);
                        assert(before[j]@ == taken(orig, ri as int, idx as int)[j]);
                    }
                }
                assert(self@.records =~= taken(orig, ri as int, idx + 1));
            }
            idx = idx + 1;
        }
        ropes
    }

    /// Plays the first collection whose items are all ready with them (see
    /// `flatten_target`): lends it out, takes the ropes of its items, and
    /// asks for the chord; with none to play, marks the volume flat where
    /// every collection was played and every record too.
    pub fn flatten(&mut self) -> (r: Option<Gesture>)
        requires
            volume_wf(old(self)@),
        ensures
            volume_wf(final(self)@),
            old(self)@.flat ==> r is None && final(self)@ == old(self)@,
            !old(self)@.flat ==> match flatten_target(old(self)@, 0) {
                Some((ri, e)) => old(self)@.records[ri].play matches Some(Play::Legato(c, t)) && r matches Some(
                    Gesture::Chord(c2, t2, rv),
                ) && c2 == c && t2 == t && rv@ == ropes_in(old(self)@.records, ri, e) && final(self)@ == chord_state(
                    old(self)@,
                    ri,
                    e,
                ),
                None => r is None && final(self)@ == flat_state(old(self)@),
            },
    {
        if self.flat {
            return None;
        }
        let ghost v = self@;
        proof {
            lemma_flatten_target(v, 0);
        }
        let mut ready = true;
        let mut k: usize = 0;
        while k < self.legatos.len()
            invariant
                self@ == v,
                v == old(self)@,
                !v.flat,
                volume_wf(v),
                k <= v.legatos.len(),
                flatten_target(v, 0) == flatten_target(v, k as int),
                ready == (forall|m: int| 0 <= m < k ==> #[trigger] v.legatos[m].1),
            decreases v.legatos.len() - k,
        {
            let (record_idx, is_chord) = self.legatos[k];
            if is_chord {
                k = k + 1;
                continue;
            }
            ready = false;
            proof {
                assert(entry_ok(v.legatos, v.records, k as int));
                assert(self.records@[record_idx as int]@ == v.records[record_idx as int]);
            }
            if self.records[record_idx].is_notready_or_zipped_or_borrowed() {
                k = k + 1;
                continue;
            }
            let level = self.records[record_idx].level;
            let last = record_idx == self.records.len() - 1;
            let found = if last {
                Some((record_idx + 1, 0))
            } else {
                self.scan_items(record_idx, level)
            };
            match found {
                None => {
                    k = k + 1;
                },
                Some((upto, est)) => {
                    let ghost e = upto as int;
                    proof {
                        lemma_flatten_target(v, k as int);
                        assert(flatten_target(v, k as int) == Some((record_idx as int, e)));
                        assert(record_ok(v.records[record_idx as int], record_idx as int, v.legatos));
                        lemma_flatten_wf(v, record_idx as int, e, k as int);
                    }
                    let ghost before = self.records@;
                    let play = self.records[record_idx].borrow();
                    proof {
                        assert(self.records@ == before.update(record_idx as int, self.records@[record_idx as int]));
                        assert(self@.records =~= v.records.update(record_idx as int, lent(v.records[record_idx as int])));
                        assert forall|x: int| record_idx < x < upto implies !notready_or_notchordlegato_or_borrowed(
                            #[trigger] self@.records[x].state,
                        ) && record_ok(self@.records[x], x, self@.legatos) by {
                            assert(record_ok(v.records[x], x, v.legatos));
                        }
                    }
                    let (coord, val) = play.unpack_legato_coord_n_val();
                    let ropes = if last {
                        Vec::new()
                    } else {
                        self.take_ropes(record_idx, upto, est)
                    };
                    proof {
                        lemma_ropes_in_frame(
                            v.records,
                            v.records.update(record_idx as int, lent(v.records[record_idx as int])),
                            record_idx as int,
                            e,
                        );
                        assert(self@.records =~= taken(v.records, record_idx as int, e).update(
                            record_idx as int,
                            lent(v.records[record_idx as int]),
                        ));
                        if last {
                            assert(ropes@ =~= ropes_in(v.records, record_idx as int, e));
                        }
                    }
                    return Some(Gesture::Chord(coord, val, ropes));
                },
            }
        }
        assert(flatten_target(v, k as int) is None);
        assert(ready == all_chords(v.legatos));
        if ready && self.real_records == self.size {
            proof {
                lemma_flat_wf(v);
            }
            self.flat = true;
            self.legatos = Vec::new();
            assert(self@.legatos =~= Seq::<(usize, bool)>::empty());
        }
        None
    }
}

/// What the conductor's pipe carries: a hint about the volumes, or a value
/// to play at a level.
#[derive(Debug)]
pub enum Message {
    Hint(Hint),
    Value(usize, TaggedValue),
}

/// A signal to the performers: to stop, how many volumes come, the `%TAG`
/// directives of the next volume.
#[derive(Clone, Debug)]
pub enum Signal {
    Terminate,
    Volumes(usize),
    VolumeTags(Option<Vec<(String, String)>>),
}

/// A hint about the volumes: the end of all, how many volumes come, the end
/// of a volume, the next volume, the size of the current one, its `%YAML`
/// directive, its `%TAG` directives, its borders.
#[derive(Debug)]
pub enum Hint {
    TheEnd,
    Volumes(usize),
    VolumeEnd,
    VolumeNext,
    VolumeSize(usize),
    DirectiveYaml(bool),
    DirectiveTags(Vec<(String, String)>),
    BorderTop(bool),
    BorderBot(bool),
}

/// The states of the volumes.
pub open spec fn volume_states(vols: Seq<Volume>) -> Seq<VolumeState> {
    vols.map_values(|v: Volume| v@)
}

/// A hint the volumes can take: one about the current volume comes after
/// it, and a size leaves room for the directives and borders.
pub open spec fn hint_fits(vols: Seq<VolumeState>, hint: Hint) -> bool {
    match hint {
        Hint::VolumeSize(size) => vols.len() > 0 && size + 4 <= usize::MAX,
        Hint::DirectiveYaml(_) | Hint::DirectiveTags(_) | Hint::BorderTop(_) | Hint::BorderBot(_) => vols.len() > 0,
        _ => true,
    }
}

/// A copy of the `%TAG` directives.
fn clone_tags(t: &Vec<(String, String)>) -> (r: Vec<(String, String)>)
    ensures
        r@ == t@,
{
    let mut r: Vec<(String, String)> = Vec::with_capacity(t.len());
    let mut i: usize = 0;
    while i < t.len()
        invariant
            i <= t@.len(),
            r@ == t@.subrange(0, i as int),
        decreases t@.len() - i,
    {
        let pair = (t[i].0.clone(), t[i].1.clone());
        r.push(pair);
        i = i + 1;
        assert(r@ =~= t@.subrange(0, i as int));
    }
    assert(t@.subrange(0, t@.len() as int) =~= t@);
    r
}

/// Takes a hint: counts the volumes to come, opens the next volume, sets
/// the current volume's size (preferring the border after it where more
/// volumes come), its directives and borders, or notes the end; gives the
/// signal that the performers are to get.
pub fn take_hint(volumes: &mut Vec<Volume>, vols_num: &mut usize, flush: &mut bool, hint: Hint) -> (r: Option<Signal>)
    requires
        hint_fits(volume_states(old(volumes)@), hint),
    ensures
        ({
            let old_v = volume_states(old(volumes)@);
            let new_v = volume_states(final(volumes)@);
            let last = old_v.len() - 1;
            match hint {
                Hint::TheEnd => r is None && new_v == old_v && *final(vols_num) == *old(vols_num) && *final(flush),
                Hint::Volumes(size) => r == Some(Signal::Volumes(size)) && new_v == old_v && *final(vols_num) == size
                    && *final(flush) == *old(flush),
                Hint::VolumeEnd => r is None && new_v == old_v && *final(vols_num) == *old(vols_num) && *final(flush)
                    == *old(flush),
                Hint::VolumeNext => r is None && new_v.len() == old_v.len() + 1 && new_v.drop_last() == old_v
                    && new_v.last() == (VolumeState {
                    styles: no_styles(),
                    styled: no_styles(),
                    init: false,
                    flat: false,
                    idx: old_v.len() as usize,
                    size: 0,
                    real_records: 0,
                    bytes_len: 0,
                    zero_level_nodes: 0,
                    legatos: Seq::empty(),
                    records: Seq::empty(),
                    tags: None,
                }) && *final(vols_num) == *old(vols_num) && *final(flush) == *old(flush),
                Hint::VolumeSize(size) => {
                    let v = old_v[last];
                    let styles = init_styles(v.styles, v.tags is Some, old_v.len() < *old(vols_num));
                    &&& r matches Some(Signal::VolumeTags(t)) && match t {
                        Some(tv) => v.tags == Some(tv@),
                        None => v.tags is None,
                    }
                    &&& new_v == old_v.update(
                        last,
                        VolumeState {
                            styles: styles,
                            size: (size + styles_count(styles)) as usize,
                            init: true,
                            legatos: Seq::empty(),
                            records: Seq::empty(),
                            ..v
                        },
                    )
                    &&& *final(vols_num) == *old(vols_num) && *final(flush) == *old(flush)
                },
                Hint::DirectiveYaml(print) => r is None && new_v == old_v.update(
                    last,
                    VolumeState { styles: VolumeStyles { dir_yaml: print, ..old_v[last].styles }, ..old_v[last] },
                ) && *final(vols_num) == *old(vols_num) && *final(flush) == *old(flush),
                Hint::BorderTop(print) => r is None && new_v == old_v.update(
                    last,
                    VolumeState { styles: VolumeStyles { top_border: print, ..old_v[last].styles }, ..old_v[last] },
                ) && *final(vols_num) == *old(vols_num) && *final(flush) == *old(flush),
                Hint::BorderBot(print) => r is None && new_v == old_v.update(
                    last,
                    VolumeState {
                        styles: if print {
                            VolumeStyles { bot_border: true, ..old_v[last].styles }
                        } else {
                            VolumeStyles { bot_border_explicit_no: true, ..old_v[last].styles }
                        },
                        ..old_v[last]
                    },
                ) && *final(vols_num) == *old(vols_num) && *final(flush) == *old(flush),
                Hint::DirectiveTags(tags) => r is None && new_v == old_v.update(
                    last,
                    VolumeState { tags: Some(tags@), ..old_v[last] },
                ) && *final(vols_num) == *old(vols_num) && *final(flush) == *old(flush),
            }
        }),
{
    let ghost old_v = volume_states(volumes@);
    match hint {
        Hint::TheEnd => {
            *flush = true;
            None
        },
        Hint::Volumes(size) => {
            *vols_num = size;
            volumes.reserve(size);
            Some(Signal::Volumes(size))
        },
        Hint::VolumeEnd => None,
        Hint::VolumeNext => {
            let idx = volumes.len();
            volumes.push(Volume::new(idx));
            assert(volume_states(volumes@).drop_last() =~= old_v);
            None
        },
        Hint::VolumeSize(size) => {
            let vlen = volumes.len();
            let prefer = vlen < *vols_num;
            let tags = match volumes[vlen - 1].tags() {
                Some(t) => Some(clone_tags(t)),
                None => None,
            };
            volumes[vlen - 1].init(size, prefer);
            assert(volume_states(volumes@) =~= old_v.update(vlen - 1, volumes@[vlen - 1]@));
            Some(Signal::VolumeTags(tags))
        },
        Hint::DirectiveYaml(print) => {
            let vlen = volumes.len();
            volumes[vlen - 1].set_directive_yaml(print);
            assert(volume_states(volumes@) =~= old_v.update(vlen - 1, volumes@[vlen - 1]@));
            None
        },
        Hint::BorderTop(print) => {
            let vlen = volumes.len();
            volumes[vlen - 1].set_border_top(print);
            assert(volume_states(volumes@) =~= old_v.update(vlen - 1, volumes@[vlen - 1]@));
            None
        },
        Hint::BorderBot(print) => {
            let vlen = volumes.len();
            volumes[vlen - 1].set_border_bot(print);
            assert(volume_states(volumes@) =~= old_v.update(vlen - 1, volumes@[vlen - 1]@));
            None
        },
        Hint::DirectiveTags(tags) => {
            let vlen = volumes.len();
            volumes[vlen - 1].set_tags(tags);
            assert(volume_states(volumes@) =~= old_v.update(vlen - 1, volumes@[vlen - 1]@));
            None
        },
    }
}

/// Takes a value to play at `level` into the current volume: adds its
/// record (see `Volume::push`) and asks for it to be played where it stands.
pub fn take_value(volumes: &mut Vec<Volume>, level: usize, value: TaggedValue) -> (r: Gesture)
    requires
        old(volumes)@.len() > 0,
        level == 0 ==> old(volumes)@.last()@.zero_level_nodes < usize::MAX,
    ensures
        ({
            let old_v = volume_states(old(volumes)@);
            let last = old_v.len() - 1;
            let v = old_v[last];
            &&& r == Gesture::Value(Coord { vol: last as usize, idx: v.records.len() as usize, lvl: level }, value)
            &&& volume_states(final(volumes)@) == old_v.update(
                last,
                VolumeState {
                    zero_level_nodes: (v.zero_level_nodes + if level == 0 { 1int } else { 0int }) as usize,
                    records: zip_marked(v.records.push(RecordView { level: level, state: fresh_state(), link: 0, play: None }), v.size as int),
                    ..v
                },
            )
            &&& volume_wf(v) ==> volume_wf(volume_states(final(volumes)@)[last])
        }),
{
    let ghost old_v = volume_states(volumes@);
    let vlen = volumes.len();
    let coord = Coord::new(vlen - 1, volumes[vlen - 1].len(), level);
    volumes[vlen - 1].push(Record::new(level));
    assert(volume_states(volumes@) =~= old_v.update(vlen - 1, volumes@[vlen - 1]@));
    Gesture::Value(coord, value)
}

/// Hands a play to the volume it names (see `Volume::play`).
pub fn play_to_volume(volumes: &mut Vec<Volume>, play: Play)
    requires
        !(play is Rendered),
        play_coord(play).vol < old(volumes)@.len(),
        ({
            let v = old(volumes)@[play_coord(play).vol as int]@;
            &&& volume_wf(v)
            &&& play_fits(v, play)
            &&& v.records[play_coord(play).idx as int].level == 0 ==> v.bytes_len + play_bytes_len(play) <= usize::MAX
            &&& !v.records[play_coord(play).idx as int].state.done ==> v.real_records < usize::MAX
        }),
    ensures
        volume_states(final(volumes)@) == volume_states(old(volumes)@).update(
            play_coord(play).vol as int,
            played(old(volumes)@[play_coord(play).vol as int]@, play),
        ),
        volume_wf(final(volumes)@[play_coord(play).vol as int]@),
{
    let ghost old_v = volume_states(volumes@);
    let vol = play.get_coord().vol;
    volumes[vol].play(play);
    assert(volume_states(volumes@) =~= old_v.update(vol as int, volumes@[vol as int]@));
}

/// Whether a volume has nothing to ask for: not sized yet, or no directive
/// or border to write and no collection to play.
pub open spec fn volume_idle(v: VolumeState) -> bool {
    !v.init || (style_kind(v) is None && (v.flat || flatten_target(v, 0) is None))
}

/// A volume after it was asked in vain (see `volume_idle`).
pub open spec fn idle_state(v: VolumeState) -> VolumeState {
    if !v.init || v.flat {
        v
    } else {
        flat_state(v)
    }
}

/// How many of the first `j` volumes are sized and flat once asked.
pub open spec fn flats_before(vs: Seq<VolumeState>, j: int) -> nat
    decreases j,
{
    if j <= 0 {
        0
    } else {
        flats_before(vs, j - 1) + if vs[j - 1].init && idle_state(vs[j - 1]).flat {
            1nat
        } else {
            0nat
        }
    }
}

/// The first volume from `j` on that asks for something.
pub open spec fn first_busy(vs: Seq<VolumeState>, j: int) -> Option<int>
    decreases vs.len() - j,
{
    if j < 0 || j >= vs.len() {
        None
    } else if !volume_idle(vs[j]) {
        Some(j)
    } else {
        first_busy(vs, j + 1)
    }
}

/// Each sized volume is consistent, can write its directives and borders,
/// and can count one more record at the top level.
pub open spec fn volumes_ready(vs: Seq<VolumeState>) -> bool {
    forall|i: int|
        0 <= i < vs.len() && (#[trigger] vs[i]).init ==> volume_wf(vs[i]) && !style_stuck(vs[i]) && vs[i].zero_level_nodes
            < usize::MAX
}

/// Asks the volumes, in order, for what they need next: the first sized
/// volume's directive or border to write, or else its collection to play
/// with its items (see `Volume::style`, `Volume::flatten`); volumes asked in
/// vain may turn flat. Gives how many sized volumes are flat where none
/// asks for anything.
pub fn next_gesture(volumes: &mut Vec<Volume>) -> (r: (Option<Gesture>, usize))
    requires
        volumes_ready(volume_states(old(volumes)@)),
    ensures
        ({
            let vs = volume_states(old(volumes)@);
            let ns = volume_states(final(volumes)@);
            match first_busy(vs, 0) {
                None => r.0 is None && r.1 == flats_before(vs, vs.len() as int) && ns == vs.map_values(
                    |v: VolumeState| idle_state(v),
                ),
                Some(j) => {
                    &&& ns.len() == vs.len()
                    &&& forall|i: int| 0 <= i < j ==> #[trigger] ns[i] == idle_state(vs[i])
                    &&& forall|i: int| j < i < vs.len() ==> #[trigger] ns[i] == vs[i]
                    &&& match style_kind(vs[j]) {
                        Some(k) => r.0 == Some(
                            Gesture::Style(Coord { vol: vs[j].idx, idx: vs[j].records.len() as usize, lvl: 0 }, k),
                        ) && ns[j] == styled_state(vs[j], k),
                        None => flatten_target(vs[j], 0) matches Some((ri, e)) && vs[j].records[ri].play matches Some(
                            Play::Legato(c, t),
                        ) && r.0 matches Some(Gesture::Chord(c2, t2, rv)) && c2 == c && t2 == t && rv@ == ropes_in(
                            vs[j].records,
                            ri,
                            e,
                        ) && ns[j] == chord_state(vs[j], ri, e),
                    }
                },
            }
        }),
{
    let ghost vs = volume_states(volumes@);
    let mut flats: usize = 0;
    let mut j: usize = 0;
    while j < volumes.len()
        invariant
            j <= vs.len(),
            vs == volume_states(old(volumes)@),
            volumes@.len() == vs.len(),
            volumes_ready(vs),
            forall|i: int| 0 <= i < j ==> #[trigger] volume_states(volumes@)[i] == idle_state(vs[i]),
            forall|i: int| j <= i < vs.len() ==> #[trigger] volume_states(volumes@)[i] == vs[i],
            first_busy(vs, 0) == first_busy(vs, j as int),
            flats == flats_before(vs, j as int),
            flats <= j,
        decreases vs.len() - j,
    {
        let ghost before = volume_states(volumes@);
        assert(before[j as int] == vs[j as int]);
        if !volumes[j].initialized() {
            j = j + 1;
            continue;
        }
        let st = volumes[j].style();
        proof {
            assert(volume_states(volumes@) =~= before.update(j as int, volumes@[j as int]@));
        }
        if let Some(g) = st {
            return (Some(g), flats);
        }
        if volumes[j].is_flat() {
            flats = flats + 1;
            j = j + 1;
            continue;
        }
        let ghost mid = volume_states(volumes@);
        let fl = volumes[j].flatten();
        proof {
            assert(volume_states(volumes@) =~= mid.update(j as int, volumes@[j as int]@));
        }
        if let Some(g) = fl {
            return (Some(g), flats);
        }
        if volumes[j].is_flat() {
            flats = flats + 1;
        }
        j = j + 1;
    }
    proof {
        assert(volume_states(volumes@) =~= vs.map_values(|v: VolumeState| idle_state(v)));
    }
    (None, flats)
}

/// The bytes that a record adds to the text: the rope played for it, where
/// it is a top-level record that holds a note or a chord; nothing else.
pub open spec fn record_music(r: RecordView) -> Seq<u8> {
    if r.level == 0 {
        match r.play {
            Some(Play::Note(_, rope, _)) => rope.spec_bytes(),
            Some(Play::Chord(_, rope, _)) => rope.spec_bytes(),
            _ => Seq::empty(),
        }
    } else {
        Seq::empty()
    }
}

/// The bytes that records add to the text, in turn.
pub open spec fn records_music(recs: Seq<RecordView>) -> Seq<u8>
    decreases recs.len(),
{
    if recs.len() == 0 {
        Seq::empty()
    } else {
        records_music(recs.drop_last()) + record_music(recs.last())
    }
}

/// The text of volumes: the bytes that the records of each add, in turn.
pub open spec fn volumes_music(vols: Seq<VolumeState>) -> Seq<u8>
    decreases vols.len(),
{
    if vols.len() == 0 {
        Seq::empty()
    } else {
        volumes_music(vols.drop_last()) + records_music(vols.last().records)
    }
}

/// Renders the text of volumes (see `volumes_music`).
pub fn render_music(renderer: &Renderer, volumes: Vec<Volume>) -> (r: Vec<u8>)
    ensures
        r@ == volumes_music(volume_states(volumes@)),
{
    let ghost vols = volume_states(volumes@);
    let mut music: Vec<u8> = Vec::new();
    for volume in it: volumes
        invariant
            vols == it.seq().map_values(|v: Volume| v@),
            music@ == volumes_music(vols.subrange(0, it.index() as int)),
    {
        let ghost k = it.index();
        let ghost recs = volume@.records;
        let ghost start = music@;
        proof {
            assert(vols[k] == volume@);
        }
        let records = volume.into_records();
        let ghost views = records@.map_values(|x: Record| x@);
        for record in rit: records
            invariant
                views == rit.seq().map_values(|x: Record| x@),
                views == recs,
                music@ == start + records_music(recs.subrange(0, rit.index() as int)),
        {
            let ghost j = rit.index();
            proof {
                assert(views[j] == record@);
                assert(recs.subrange(0, j + 1).drop_last() =~= recs.subrange(0, j));
                assert(recs.subrange(0, j + 1).last() == record@);
            }
            if record.level == 0 {
                match record.into_play() {
                    Some(Play::Note(_, rope, _)) => {
                        let mut bytes = rope.render(renderer);
                        music.append(&mut bytes);
                    },
                    Some(Play::Chord(_, rope, _)) => {
                        let mut bytes = rope.render(renderer);
                        music.append(&mut bytes);
                    },
                    _ => {},
                }
            }
            assert(music@ =~= start + records_music(recs.subrange(0, j + 1)));
        }
        proof {
            assert(recs.subrange(0, recs.len() as int) =~= recs);
            assert(vols.subrange(0, k + 1).drop_last() =~= vols.subrange(0, k));
            assert(vols.subrange(0, k + 1).last() == vols[k]);
        }
    }
    assert(vols.subrange(0, vols.len() as int) =~= vols);
    music
}

/// What the conductor makes of its volumes once no gesture is left: nothing
/// yet, a volume left unfinished, or the text of them all.
#[derive(Debug)]
pub enum Finale {
    Pending,
    Unfinished,
    Music(Vec<u8>),
}

/// Hands the text of the volumes out once the end was hinted (`flush`) and
/// there are volumes: where every one of them is flat (`flats` of them
/// are), their text (see `volumes_music`), and the volumes are cleared and
/// the hint taken back; where not, a volume was left unfinished. Without
/// the hint or the volumes, nothing changes.
pub fn finish(renderer: &Renderer, volumes: &mut Vec<Volume>, flush: &mut bool, flats: usize) -> (r: Finale)
    ensures
        if *old(flush) && old(volumes)@.len() > 0 {
            if flats == old(volumes)@.len() {
                &&& r matches Finale::Music(m) && m@ == volumes_music(volume_states(old(volumes)@))
                &&& final(volumes)@.len() == 0
                &&& !*final(flush)
            } else {
                &&& r is Unfinished
                &&& final(volumes)@ == old(volumes)@
                &&& *final(flush) == *old(flush)
            }
        } else {
            &&& r is Pending
            &&& final(volumes)@ == old(volumes)@
            &&& *final(flush) == *old(flush)
        },
{
    if !*flush || volumes.len() == 0 {
        return Finale::Pending;
    }
    if flats != volumes.len() {
        return Finale::Unfinished;
    }
    let mut done: Vec<Volume> = Vec::new();
    std::mem::swap(volumes, &mut done);
    *flush = false;
    Finale::Music(render_music(renderer, done))
}

} // verus!
