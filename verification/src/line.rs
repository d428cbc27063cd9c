//! The reading of one line: keys come in, the line and the history change,
//! and what the display needs goes out.
use vstd::prelude::*;
use crate::history::{fits, Direction, History, HistoryModel};
use crate::input::{step, DecoderState, KeyEvent, Parser};
use crate::line_buffer::{LineBuffer, LineModel, MAX_BYTES};
use crate::output::{
    abort_items, abort_output, finish_items, finish_output, idle_output, redraw, redraw_items,
    reset_items, reset_output, ItemModel, Output,
};
use crate::terminal::Terminal;

verus! {

/// What the reading of a line stands on, mathematically.
#[verifier::ext_equal]
pub struct LineState {
    pub prompt: Seq<u8>,
    pub line: LineModel,
    pub history: HistoryModel,
    pub decoder: DecoderState,
    /// The entry of the history that the line was last filled from, if the
    /// user is walking through the history.
    pub shown: Option<nat>,
}

impl LineState {
    pub open spec fn wf(self) -> bool {
        &&& self.line.wf()
        &&& self.history.wf()
        &&& self.history.bound == self.line.capacity
        &&& self.prompt.len() + self.line.capacity <= usize::MAX
        &&& (self.shown matches Some(index) ==> index < self.history.entries.len())
    }

    /// A new read begins: empty line, decoder in `Ground`, no entry shown.
    pub open spec fn reset(self, prompt: Seq<u8>) -> LineState {
        LineState {
            prompt,
            line: self.line.reset(),
            history: self.history,
            decoder: DecoderState::Ground,
            shown: None,
        }
    }

    /// The line is filled from an entry of the history.
    pub open spec fn recall(self, index: nat) -> LineState {
        LineState {
            line: self.line.replace_with(self.history.entries[index as int]),
            shown: Some(index),
            ..self
        }
    }

    /// The entry that `Up` leads to: the newest where none is shown, else the
    /// next older one; `None` where there is none.
    pub open spec fn older(self) -> Option<nat> {
        match self.shown {
            None => if self.history.entries.len() > 0 {
                Some((self.history.entries.len() - 1) as nat)
            } else {
                None
            },
            Some(index) => self.history.navigate(Direction::Up, index),
        }
    }

    /// What a key does to the line and the history.
    pub open spec fn apply(self, key: KeyEvent) -> LineState {
        match key {
            KeyEvent::Char(byte) => LineState { line: self.line.insert(byte), ..self },
            KeyEvent::Backspace => LineState { line: self.line.delete_left(), ..self },
            KeyEvent::Delete => LineState { line: self.line.delete_right(), ..self },
            KeyEvent::Left => LineState { line: self.line.move_left(), ..self },
            KeyEvent::Right => LineState { line: self.line.move_right(), ..self },
            KeyEvent::Home => LineState { line: self.line.move_home(), ..self },
            KeyEvent::End => LineState { line: self.line.move_end(), ..self },
            KeyEvent::Up => match self.older() {
                Some(index) => self.recall(index),
                None => self,
            },
            KeyEvent::Down => match self.shown {
                Some(index) => match self.history.navigate(Direction::Down, index) {
                    Some(newer) => self.recall(newer),
                    None => LineState { line: self.line.reset(), shown: None, ..self },
                },
                None => self,
            },
            KeyEvent::Enter => LineState {
                history: if self.line.content.len() > 0 {
                    self.history.push(self.line.content)
                } else {
                    self.history
                },
                shown: None,
                ..self
            },
            KeyEvent::Abort => LineState { line: self.line.reset(), shown: None, ..self },
            KeyEvent::CtrlLetter(_) => self,
            KeyEvent::Unrecognized => self,
        }
    }

    /// The key, if any, that a byte of input completes.
    pub open spec fn key(self, byte: u8) -> Option<KeyEvent> {
        step(self.decoder, byte).1
    }

    /// What a byte of input does to the state.
    pub open spec fn advance(self, byte: u8) -> LineState {
        let decoded = LineState { decoder: step(self.decoder, byte).0, ..self };
        match self.key(byte) {
            Some(key) => decoded.apply(key),
            None => decoded,
        }
    }

    /// What a byte of input makes the display need, on a display of `width` columns.
    pub open spec fn output(self, byte: u8, width: nat) -> Seq<ItemModel> {
        match self.key(byte) {
            None => seq![ItemModel::NoOp],
            Some(KeyEvent::Enter) => finish_items(self.line, self.prompt.len(), width),
            Some(KeyEvent::Abort) => abort_items(),
            Some(_) => redraw_items(self.line, self.advance(byte).line, self.prompt.len(), width),
        }
    }
}

/// The reading of lines: the line, the history, the decoder and the prompt.
pub struct Line {
    /// The prompt of the read under way. Only its length is kept.
    prompt: Ghost<Seq<u8>>,
    prompt_len: usize,
    buffer: LineBuffer,
    /// The line as it was before the last key, for telling what changed.
    previous: LineBuffer,
    history: History,
    parser: Parser,
    shown: Option<usize>,
}

impl View for Line {
    type V = LineState;

    closed spec fn view(&self) -> LineState {
        LineState {
            prompt: self.prompt@,
            line: self.buffer@,
            history: self.history@,
            decoder: self.parser@,
            shown: match self.shown {
                Some(index) => Some(index as nat),
                None => None,
            },
        }
    }
}

impl Line {
    /// The invariant of the type.
    pub closed spec fn wf(&self) -> bool {
        &&& self.buffer.wf()
        &&& self.previous.wf()
        &&& self.previous@.capacity == self.buffer@.capacity
        &&& self.history.wf()
        &&& self.prompt_len == self.prompt@.len()
        &&& self@.wf()
    }

    /// `wf` of the type gives `wf` of the view.
    pub proof fn lemma_view_wf(&self)
        requires
            self.wf(),
        ensures
            self@.wf(),
    {
    }

    /// The state that `new` begins in.
    pub open spec fn new_state(line_capacity: nat, history_capacity: nat) -> LineState {
        LineState {
            prompt: Seq::empty(),
            line: LineModel::empty(line_capacity),
            history: HistoryModel::empty(history_capacity, line_capacity),
            decoder: DecoderState::Ground,
            shown: None,
        }
    }

    /// An empty line of up to `line_capacity` bytes, and an empty history
    /// of `history_capacity` entries, each as long as a line may be.
    pub fn new(line_capacity: usize, history_capacity: usize) -> (line: Line)
        requires
            line_capacity <= MAX_BYTES,
            fits(history_capacity, line_capacity),
        ensures
            line.wf(),
            line@ == Line::new_state(line_capacity as nat, history_capacity as nat),
    {
        Line {
            prompt: Ghost(Seq::empty()),
            prompt_len: 0,
            buffer: LineBuffer::new(line_capacity),
            previous: LineBuffer::new(line_capacity),
            history: History::new(history_capacity, line_capacity),
            parser: Parser::new(),
            shown: None,
        }
    }

    /// The bytes of the line as it stands.
    pub fn as_slice(&self) -> (bytes: &[u8])
        ensures
            bytes@ == self@.line.content,
    {
        self.buffer.as_slice()
    }

    /// The most bytes a line may have.
    pub fn capacity(&self) -> (capacity: usize)
        ensures
            capacity == self@.line.capacity,
    {
        self.buffer.capacity()
    }

    /// The history.
    pub fn history(&self) -> (history: &History)
        ensures
            history@ == self@.history,
            self.wf() ==> history.wf(),
    {
        &self.history
    }

    /// Adds lines to the history while it has free slots; says how many were added.
    pub fn load_history(&mut self, lines: &[&[u8]]) -> (accepted: usize)
        requires
            old(self).wf(),
        ensures
            final(self).wf(),
            final(self)@ == (LineState {
                history: old(self)@.history.load(crate::history::views_of(lines@)),
                ..old(self)@
            }),
            accepted == old(self)@.history.accepted(lines@.len()),
    {
        let accepted = self.history.load_entries(lines);
        proof {
            self.history.lemma_view_wf();
        }
        accepted
    }

    /// Begins the reading of a line behind `prompt`, and says what to send first.
    pub fn reset(&mut self, prompt: &[u8], terminal: &Terminal) -> (output: Output)
        requires
            old(self).wf(),
            terminal.wf(),
            prompt@.len() + old(self)@.line.capacity <= usize::MAX,
        ensures
            final(self).wf(),
            final(self)@ == old(self)@.reset(prompt@),
            output@ == reset_items(prompt@, terminal.width as nat),
    {
        self.prompt = Ghost(prompt@);
        self.prompt_len = prompt.len();
        self.buffer.reset();
        self.parser = Parser::new();
        self.shown = None;
        reset_output(prompt, terminal.width)
    }

    /// Fills the line from the entry at `index`.
    fn recall(&mut self, index: usize)
        requires
            old(self).wf(),
            index < old(self)@.history.entries.len(),
        ensures
            final(self).wf(),
            final(self)@ == old(self)@.recall(index as nat),
            final(self).previous == old(self).previous,
            final(self).prompt_len == old(self).prompt_len,
    {
        match self.history.entry(index) {
            Some(slice) => {
                let (head, tail) = slice.get_slices();
                self.buffer.replace_with_parts(head, tail);
            },
            None => {},
        }
        self.shown = Some(index);
    }

    /// Does to the line and the history what a key asks for.
    fn apply(&mut self, key: KeyEvent)
        requires
            old(self).wf(),
        ensures
            final(self).wf(),
            final(self)@ == old(self)@.apply(key),
            final(self).previous == old(self).previous,
            final(self).prompt_len == old(self).prompt_len,
    {
        match key {
            KeyEvent::Char(byte) => {
                let _refused = self.buffer.insert(byte);
            },
            KeyEvent::Backspace => {
                self.buffer.delete_left();
            },
            KeyEvent::Delete => {
                self.buffer.delete_right();
            },
            KeyEvent::Left => {
                self.buffer.move_left();
            },
            KeyEvent::Right => {
                self.buffer.move_right();
            },
            KeyEvent::Home => {
                self.buffer.move_home();
            },
            KeyEvent::End => {
                self.buffer.move_end();
            },
            KeyEvent::Up => {
                let older: Option<usize> = match self.shown {
                    None => {
                        if self.history.len() > 0 {
                            Some(self.history.len() - 1)
                        } else {
                            None
                        }
                    },
                    Some(index) => self.history.navigate(Direction::Up, index),
                };
                match older {
                    Some(index) => {
                        self.recall(index);
                    },
                    None => {},
                }
            },
            KeyEvent::Down => {
                match self.shown {
                    Some(index) => {
                        match self.history.navigate(Direction::Down, index) {
                            Some(newer) => {
                                self.recall(newer);
                            },
                            None => {
                                self.buffer.reset();
                                self.shown = None;
                            },
                        }
                    },
                    None => {},
                }
            },
            KeyEvent::Enter => {
                if self.buffer.len() > 0 {
                    let _cut = self.history.push(self.buffer.as_slice());
                    proof {
                        self.history.lemma_view_wf();
                    }
                }
                self.shown = None;
            },
            KeyEvent::Abort => {
                self.buffer.reset();
                self.shown = None;
            },
            KeyEvent::CtrlLetter(_) => {},
            KeyEvent::Unrecognized => {},
        }
    }

    /// Takes one byte of input, and says what to send for it.
    pub fn advance(&mut self, byte: u8, terminal: &Terminal) -> (output: Output)
        requires
            old(self).wf(),
            terminal.wf(),
        ensures
            final(self).wf(),
            final(self)@ == old(self)@.advance(byte),
            output@ == old(self)@.output(byte, terminal.width as nat),
    {
        match self.parser.advance(byte) {
            None => idle_output(),
            Some(KeyEvent::Enter) => {
                let output = finish_output(&self.buffer, self.prompt_len, terminal.width);
                self.apply(KeyEvent::Enter);
                output
            },
            Some(KeyEvent::Abort) => {
                self.apply(KeyEvent::Abort);
                abort_output()
            },
            Some(key) => {
                self.previous.copy_from(&self.buffer);
                self.apply(key);
                redraw(
                    self.previous.as_slice(),
                    self.previous.cursor(),
                    &self.buffer,
                    self.prompt_len,
                    terminal.width,
                )
            },
        }
    }
}

} // verus!
