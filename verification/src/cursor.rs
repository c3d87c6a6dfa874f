//! Interactive viewing cursor: a bidirectional pointer into a log's record
//! sequence, driven by discrete navigation commands, and the frame the
//! renderer draws for the record under it. At either bound the cursor stays
//! put: a step past the edge reports "no record" and changes nothing.

use vstd::prelude::*;

use crate::codec::{opt_string_view, pretty_json, pretty_json_of};
use crate::record::Log;

verus! {

/// A pointer to one record of a log: the index of the record currently shown.
pub struct Cursor {
    pub pos: usize,
}

/// Where an advance lands: one step forward, except at the last record, where
/// the cursor stays.
pub open spec fn advance_pos(pos: int, len: int) -> int {
    if pos + 1 < len {
        pos + 1
    } else {
        pos
    }
}

/// Where a retreat lands: one step back, except at the first record, where the
/// cursor stays.
pub open spec fn retreat_pos(pos: int) -> int {
    if pos == 0 {
        0
    } else {
        pos - 1
    }
}

/// Where `n` advances land.
pub open spec fn advance_n(pos: int, len: int, n: nat) -> int
    decreases n,
{
    if n == 0 {
        pos
    } else {
        advance_pos(advance_n(pos, len, (n - 1) as nat), len)
    }
}

/// Where `n` retreats land.
pub open spec fn retreat_n(pos: int, n: nat) -> int
    decreases n,
{
    if n == 0 {
        pos
    } else {
        retreat_pos(retreat_n(pos, (n - 1) as nat))
    }
}

/// Bound law: from the first record, any number of retreats stays at the first
/// record.
pub proof fn lemma_retreat_stays_at_first(n: nat)
    ensures
        retreat_n(0, n) == 0,
    decreases n,
{
    if n > 0 {
        lemma_retreat_stays_at_first((n - 1) as nat);
    }
}

/// Bound law: from the last record, any number of advances stays at the last
/// record.
pub proof fn lemma_advance_stays_at_last(len: int, n: nat)
    requires
        len > 0,
    ensures
        advance_n(len - 1, len, n) == len - 1,
    decreases n,
{
    if n > 0 {
        lemma_advance_stays_at_last(len, (n - 1) as nat);
    }
}

impl Cursor {
    /// The cursor points at a record of the log.
    pub open spec fn wf(self, log: Log) -> bool {
        (self.pos as int) < log.recs().len()
    }

    /// A cursor on the first record of a non-empty log.
    pub fn first(log: &Log) -> (r: Cursor)
        requires
            log.recs().len() > 0,
        ensures
            r.wf(*log),
            r.pos == 0,
    {
        Cursor { pos: 0 }
    }

    /// Steps to the next record in offset order; at the last record the cursor
    /// stays and the step reports that there was no record.
    pub fn advance(&mut self, log: &Log) -> (moved: bool)
        requires
            old(self).wf(*log),
        ensures
            final(self).wf(*log),
            final(self).pos == advance_pos(old(self).pos as int, log.recs().len() as int),
            moved == (old(self).pos + 1 < log.recs().len()),
    {
        if self.pos < log.records.len() - 1 {
            self.pos = self.pos + 1;
            true
        } else {
            false
        }
    }

    /// Steps to the previous record; at the first record the cursor stays and
    /// the step reports that there was no record.
    pub fn retreat(&mut self) -> (moved: bool)
        ensures
            final(self).pos == retreat_pos(old(self).pos as int),
            moved == (old(self).pos != 0),
    {
        if self.pos > 0 {
            self.pos = self.pos - 1;
            true
        } else {
            false
        }
    }

    /// The record under the cursor.
    pub fn current<'a>(&self, log: &'a Log) -> (r: &'a crate::record::Record)
        requires
            self.wf(*log),
        ensures
            r@ == log.recs()[self.pos as int],
    {
        &log.records[self.pos]
    }
}

/// What the renderer draws for one record: the offset named in the header, and
/// the payload's pretty-printed form — `None` where the payload does not parse,
/// for the caller to show an explicit placeholder instead of failing.
pub struct RenderFrame {
    pub offset: u64,
    pub body: Option<String>,
}

/// Builds the frame for the record under the cursor.
pub fn render_frame(cursor: &Cursor, log: &Log) -> (r: RenderFrame)
    requires
        cursor.wf(*log),
    ensures
        r.offset == log.recs()[cursor.pos as int].offset,
        opt_string_view(r.body) == pretty_json_of(log.recs()[cursor.pos as int].payload),
{
    let rec = cursor.current(log);
    let body = pretty_json(rec.payload.as_slice());
    RenderFrame { offset: rec.offset, body }
}

/// One key event, as the terminal layer hands it over.
#[derive(Clone, Copy, Debug, PartialEq, Eq, Structural)]
pub enum KeyInput {
    /// An ordinary character key.
    Char(char),
    Up,
    Down,
    Left,
    Right,
    Esc,
    /// The interrupt chord.
    Interrupt,
    /// Any other key event.
    Other,
}

/// What one key asks of the viewer.
#[derive(Clone, Copy, Debug, PartialEq, Eq, Structural)]
pub enum ViewCommand {
    /// End the session.
    Quit,
    /// Step to the next record.
    Advance,
    /// Step to the previous record.
    Retreat,
    /// An unrecognized character: log it to the side channel, change nothing.
    LogChar(char),
    /// An unrecognized non-character key: change nothing.
    Ignore,
}

/// The viewer's key map: `q`, Esc and the interrupt chord quit; up, left, `p`
/// and `k` retreat; down, right, `n` and `j` advance; any other character is
/// logged; anything else is ignored.
pub open spec fn command_of(k: KeyInput) -> ViewCommand {
    match k {
        KeyInput::Char(c) => if c == 'q' {
            ViewCommand::Quit
        } else if c == 'p' || c == 'k' {
            ViewCommand::Retreat
        } else if c == 'n' || c == 'j' {
            ViewCommand::Advance
        } else {
            ViewCommand::LogChar(c)
        },
        KeyInput::Esc => ViewCommand::Quit,
        KeyInput::Interrupt => ViewCommand::Quit,
        KeyInput::Up => ViewCommand::Retreat,
        KeyInput::Left => ViewCommand::Retreat,
        KeyInput::Down => ViewCommand::Advance,
        KeyInput::Right => ViewCommand::Advance,
        KeyInput::Other => ViewCommand::Ignore,
    }
}

/// Reads one key against the viewer's key map.
pub fn interpret_key(k: KeyInput) -> (r: ViewCommand)
    ensures
        r == command_of(k),
{
    match k {
        KeyInput::Char(c) => if c == 'q' {
            ViewCommand::Quit
        } else if c == 'p' || c == 'k' {
            ViewCommand::Retreat
        } else if c == 'n' || c == 'j' {
            ViewCommand::Advance
        } else {
            ViewCommand::LogChar(c)
        },
        KeyInput::Esc => ViewCommand::Quit,
        KeyInput::Interrupt => ViewCommand::Quit,
        KeyInput::Up => ViewCommand::Retreat,
        KeyInput::Left => ViewCommand::Retreat,
        KeyInput::Down => ViewCommand::Advance,
        KeyInput::Right => ViewCommand::Advance,
        KeyInput::Other => ViewCommand::Ignore,
    }
}

/// What one step of the viewer does to the screen.
pub enum StepEffect {
    /// End the session.
    Quit,
    /// Clear the display and draw this frame.
    Render(RenderFrame),
    /// Keep the display and show the transient "no record" notice.
    Notice,
    /// Log the character to the side channel; the display keeps its content.
    LogChar(char),
    /// Nothing: the display keeps its content.
    Ignore,
}

/// The image of a step effect, for contracts: which effect, and the rendered
/// offset and body where one is drawn.
pub open spec fn effect_renders(e: StepEffect) -> Option<RenderFrame> {
    match e {
        StepEffect::Render(f) => Some(f),
        _ => None,
    }
}

/// Drives the viewer one key forward: a quit key ends the session; a movement
/// key moves the cursor and redraws exactly when there was a record to move
/// to, and otherwise leaves the cursor in place and shows the notice; any
/// other key leaves both cursor and display untouched.
pub fn view_step(cursor: &mut Cursor, log: &Log, k: KeyInput) -> (e: StepEffect)
    requires
        old(cursor).wf(*log),
    ensures
        final(cursor).wf(*log),
        match command_of(k) {
            ViewCommand::Quit => *final(cursor) == *old(cursor) && (e matches StepEffect::Quit),
            ViewCommand::Advance => {
                let target = advance_pos(old(cursor).pos as int, log.recs().len() as int);
                &&& final(cursor).pos == target
                &&& if old(cursor).pos + 1 < log.recs().len() {
                    match effect_renders(e) {
                        Some(f) => f.offset == log.recs()[target].offset && opt_string_view(f.body)
                            == pretty_json_of(log.recs()[target].payload),
                        None => false,
                    }
                } else {
                    e matches StepEffect::Notice
                }
            },
            ViewCommand::Retreat => {
                let target = retreat_pos(old(cursor).pos as int);
                &&& final(cursor).pos == target
                &&& if old(cursor).pos != 0 {
                    match effect_renders(e) {
                        Some(f) => f.offset == log.recs()[target].offset && opt_string_view(f.body)
                            == pretty_json_of(log.recs()[target].payload),
                        None => false,
                    }
                } else {
                    e matches StepEffect::Notice
                }
            },
            ViewCommand::LogChar(c) => *final(cursor) == *old(cursor) && (e matches
                StepEffect::LogChar(d) && d == c),
            ViewCommand::Ignore => *final(cursor) == *old(cursor) && (e matches StepEffect::Ignore),
        },
{
    match interpret_key(k) {
        ViewCommand::Quit => StepEffect::Quit,
        ViewCommand::Advance => {
            if cursor.advance(log) {
                StepEffect::Render(render_frame(cursor, log))
            } else {
                StepEffect::Notice
            }
        },
        ViewCommand::Retreat => {
            if cursor.retreat() {
                StepEffect::Render(render_frame(cursor, log))
            } else {
                StepEffect::Notice
            }
        },
        ViewCommand::LogChar(c) => StepEffect::LogChar(c),
        ViewCommand::Ignore => StepEffect::Ignore,
    }
}

} // verus!
