//! The keymap: which action a key stands for on which tab, and the UI's
//! response to it.
use vstd::prelude::*;

use crate::library::{lemma_total_concat, lemma_total_prefix, total_duration};
use crate::player::{hit_tracks, search_outcome, selection, UI};
use crate::state::{cols_down, cols_up, next_index, prev_index};
use crate::record::Track;

verus! {

/// A key as the terminal reports it.
pub enum KeyPress {
    Char(char),
    Enter,
    Backspace,
    Up,
    Down,
    Left,
    Right,
    Esc,
    Other,
}

/// What a key asks for.
#[derive(PartialEq, Eq, Structural, Clone, Copy, Debug)]
pub enum KeyAction {
    Quit,
    Enter,
    Skip,
    Tab(usize),
    Type(char),
    Erase,
    EnqueueResult,
    TogglePause,
    Shuffle,
    Enqueue,
    Clear,
    AddFront,
    Up,
    Down,
    Left,
    Right,
    Ignore,
}

/// What the UI asks of the audio task after a key.
pub enum Command {
    Nothing,
    Play(Track),
    TogglePause,
    Quit,
}

/// The keymap. `Esc` quits, `Enter` plays or searches, `>` skips and
/// `1`/`2`/`3` pick a tab on every tab. On the search tab, `Space` enqueues
/// the selected result where there is one, other characters are typed and
/// `Backspace` erases. Elsewhere `p` pauses or plays, `s` shuffles, `Space`
/// enqueues, `c` clears the queue and `n` adds to its front. Arrows move.
pub open spec fn key_action(tab: usize, k: KeyPress, has_results: bool) -> KeyAction {
    match k {
        KeyPress::Esc => KeyAction::Quit,
        KeyPress::Enter => KeyAction::Enter,
        KeyPress::Char(c) => {
            if c == '>' {
                KeyAction::Skip
            } else if c == '1' {
                KeyAction::Tab(0)
            } else if c == '2' {
                KeyAction::Tab(1)
            } else if c == '3' {
                KeyAction::Tab(2)
            } else if tab == 2 {
                if c == ' ' && has_results {
                    KeyAction::EnqueueResult
                } else {
                    KeyAction::Type(c)
                }
            } else if c == 'p' {
                KeyAction::TogglePause
            } else if c == 's' {
                KeyAction::Shuffle
            } else if c == ' ' {
                KeyAction::Enqueue
            } else if c == 'c' {
                KeyAction::Clear
            } else if c == 'n' {
                KeyAction::AddFront
            } else {
                KeyAction::Ignore
            }
        },
        KeyPress::Backspace => if tab == 2 {
            KeyAction::Erase
        } else {
            KeyAction::Ignore
        },
        KeyPress::Up => KeyAction::Up,
        KeyPress::Down => KeyAction::Down,
        KeyPress::Left => KeyAction::Left,
        KeyPress::Right => KeyAction::Right,
        KeyPress::Other => KeyAction::Ignore,
    }
}

/// The action `k` stands for on tab `tab`.
pub fn classify(tab: usize, k: &KeyPress, has_results: bool) -> (r: KeyAction)
    ensures
        r == key_action(tab, *k, has_results),
{
    match k {
        KeyPress::Esc => KeyAction::Quit,
        KeyPress::Enter => KeyAction::Enter,
        KeyPress::Char(c) => {
            let c = *c;
            if c == '>' {
                KeyAction::Skip
            } else if c == '1' {
                KeyAction::Tab(0)
            } else if c == '2' {
                KeyAction::Tab(1)
            } else if c == '3' {
                KeyAction::Tab(2)
            } else if tab == 2 {
                if c == ' ' && has_results {
                    KeyAction::EnqueueResult
                } else {
                    KeyAction::Type(c)
                }
            } else if c == 'p' {
                KeyAction::TogglePause
            } else if c == 's' {
                KeyAction::Shuffle
            } else if c == ' ' {
                KeyAction::Enqueue
            } else if c == 'c' {
                KeyAction::Clear
            } else if c == 'n' {
                KeyAction::AddFront
            } else {
                KeyAction::Ignore
            }
        },
        KeyPress::Backspace => if tab == 2 {
            KeyAction::Erase
        } else {
            KeyAction::Ignore
        },
        KeyPress::Up => KeyAction::Up,
        KeyPress::Down => KeyAction::Down,
        KeyPress::Left => KeyAction::Left,
        KeyPress::Right => KeyAction::Right,
        KeyPress::Other => KeyAction::Ignore,
    }
}

/// Relies on `String::push`: appends `c`.
#[verifier::external_body]
fn push_char(s: &mut String, c: char)
    ensures
        final(s)@ == old(s)@.push(c),
{
    s.push(c)
}

/// Relies on `String::pop`: removes and returns the last character; an
/// empty string stays empty and gives `None`.
#[verifier::external_body]
fn pop_char(s: &mut String) -> (r: Option<char>)
    ensures
        old(s)@.len() == 0 ==> r is None && final(s)@ == old(s)@,
        old(s)@.len() > 0 ==> r == Some(old(s)@.last()) && final(s)@ == old(s)@.drop_last(),
{
    s.pop()
}

/// Whether `block` can join a queue of total `total` without the total
/// leaving `u64`.
pub fn fits(total: u64, block: &Vec<Track>) -> (r: bool)
    ensures
        r == (total + total_duration(block@) <= u64::MAX),
{
    let mut sum: u64 = total;
    let mut k: usize = 0;
    while k < block.len()
        invariant
            k <= block@.len(),
            sum == total + total_duration(block@.subrange(0, k as int)),
        decreases block@.len() - k,
    {
        proof {
            assert(block@.subrange(0, k + 1).drop_last() =~= block@.subrange(0, k as int));
        }
        let d = block[k].duration as u64;
        if sum > u64::MAX - d {
            proof {
                lemma_total_prefix(block@, k as int + 1);
            }
            return false;
        }
        sum = sum + d;
        k = k + 1;
    }
    proof {
        assert(block@.subrange(0, block@.len() as int) =~= block@);
    }
    true
}

impl<'a> UI<'a> {
    /// Responds to a key as `key_action` names it on the current tab: the
    /// queue and column actions run as their own functions state; an action
    /// whose tracks would push the queue's total past `u64` is dropped.
    /// Returns what to send to the audio task.
    pub fn on_key(&mut self, key: KeyPress) -> (r: Command)
        requires
            old(self).wf(),
            old(self).search_wf(),
            old(self).engines.consistent(),
        ensures
            final(self).wf(),
            final(self).search_wf(),
            final(self).engines == old(self).engines,
            ({
                let act = key_action(
                    old(self).tabs.index,
                    key,
                    old(self).search_results@.len() > 0,
                );
                &&& (r is Quit <==> act == KeyAction::Quit)
                &&& (r is TogglePause <==> act == KeyAction::TogglePause)
                &&& act == KeyAction::Quit ==> *final(self) == *old(self)
                &&& act == KeyAction::TogglePause ==> *final(self) == *old(self)
                &&& act == KeyAction::Enter ==> {
                    &&& old(self).tabs.index == 2 ==> search_outcome(*old(self), *final(self))
                    &&& if old(self).tabs.index == 1 && old(self).lib_cols.current_active == 2
                        && old(self).lib_cols.tracks.items@.len() > 0 {
                        r == Command::Play(
                            old(self).lib_cols.tracks.items@[old(self).lib_cols.tracks.selected as int],
                        )
                    } else {
                        r is Nothing
                    }
                }
                &&& act == KeyAction::Up ==> if old(self).tabs.index == 1 {
                    cols_up(old(self).lib_cols, final(self).lib_cols) && final(self).queue == old(
                        self,
                    ).queue
                } else if old(self).tabs.index == 2 {
                    final(self).search_select == prev_index(
                        old(self).search_select,
                        old(self).search_results@.len(),
                    ) && final(self).lib_cols == old(self).lib_cols
                } else {
                    *final(self) == *old(self)
                }
                &&& act == KeyAction::Down ==> if old(self).tabs.index == 1 {
                    cols_down(old(self).lib_cols, final(self).lib_cols) && final(self).queue == old(
                        self,
                    ).queue
                } else if old(self).tabs.index == 2 {
                    final(self).search_select == next_index(
                        old(self).search_select,
                        old(self).search_results@.len(),
                    ) && final(self).lib_cols == old(self).lib_cols
                } else {
                    *final(self) == *old(self)
                }
                &&& act == KeyAction::Left ==> if old(self).tabs.index == 1 {
                    &&& final(self).lib_cols.current_active == if old(self).lib_cols.current_active
                        > 0 {
                        old(self).lib_cols.current_active - 1
                    } else {
                        0int
                    }
                    &&& final(self).lib_cols.artists == old(self).lib_cols.artists
                    &&& final(self).lib_cols.albums == old(self).lib_cols.albums
                    &&& final(self).lib_cols.tracks == old(self).lib_cols.tracks
                } else {
                    *final(self) == *old(self)
                }
                &&& act == KeyAction::Right ==> if old(self).tabs.index == 1 {
                    &&& final(self).lib_cols.current_active == if old(self).lib_cols.current_active
                        < 2 {
                        old(self).lib_cols.current_active + 1
                    } else {
                        old(self).lib_cols.current_active as int
                    }
                    &&& final(self).lib_cols.artists == old(self).lib_cols.artists
                    &&& final(self).lib_cols.albums == old(self).lib_cols.albums
                    &&& final(self).lib_cols.tracks == old(self).lib_cols.tracks
                } else {
                    *final(self) == *old(self)
                }
                &&& (act matches KeyAction::Tab(n) ==> final(self).tabs.index == n)
                &&& (act matches KeyAction::Type(c) ==> final(self).search_input@
                    == old(self).search_input@.push(c))
                &&& act == KeyAction::Erase ==> final(self).search_input@ == if old(
                    self,
                ).search_input@.len() == 0 {
                    old(self).search_input@
                } else {
                    old(self).search_input@.drop_last()
                }
                &&& act == KeyAction::Skip ==> if old(self).queue.tracks@.len() > 0 {
                    &&& r == Command::Play(old(self).queue.tracks@[0])
                    &&& final(self).queue.tracks@ == old(self).queue.tracks@.drop_first()
                } else {
                    r is Nothing && final(self).queue == old(self).queue
                }
                &&& act == KeyAction::Clear ==> final(self).queue.tracks@.len() == 0
                &&& act == KeyAction::Shuffle ==> final(self).queue.tracks@.to_multiset()
                    == old(self).queue.tracks@.to_multiset()
                &&& act == KeyAction::Enqueue ==> (final(self).queue.tracks@ == old(
                    self,
                ).queue.tracks@ + selection(old(self).lib_cols) || (final(self).queue
                    == old(self).queue && total_duration(
                    old(self).queue.tracks@ + selection(old(self).lib_cols),
                ) > u64::MAX))
                &&& act == KeyAction::AddFront ==> (final(self).queue.tracks@ == selection(
                    old(self).lib_cols,
                ) + old(self).queue.tracks@ || (final(self).queue == old(self).queue
                    && total_duration(
                    selection(old(self).lib_cols) + old(self).queue.tracks@,
                ) > u64::MAX))
                &&& act == KeyAction::EnqueueResult ==> (final(self).queue.tracks@ == old(
                    self,
                ).queue.tracks@ + hit_tracks(
                    old(self).search_results@[old(self).search_select as int]@,
                ) || (final(self).queue == old(self).queue && total_duration(
                    old(self).queue.tracks@ + hit_tracks(
                        old(self).search_results@[old(self).search_select as int]@,
                    ),
                ) > u64::MAX))
                &&& act == KeyAction::Ignore ==> final(self).queue == old(self).queue
                    && final(self).now_playing == old(self).now_playing
            }),
    {
        let act = classify(self.tabs.index, &key, self.search_results.len() > 0);
        match act {
            KeyAction::Quit => Command::Quit,
            KeyAction::Enter => match self.on_enter() {
                Some(t) => Command::Play(t),
                None => Command::Nothing,
            },
            KeyAction::Skip => {
                if self.queue.is_empty() {
                    Command::Nothing
                } else {
                    Command::Play(self.play_from_queue())
                }
            },
            KeyAction::Tab(n) => {
                self.tabs.index = n;
                Command::Nothing
            },
            KeyAction::Type(c) => {
                push_char(&mut self.search_input, c);
                Command::Nothing
            },
            KeyAction::Erase => {
                let _ = pop_char(&mut self.search_input);
                Command::Nothing
            },
            KeyAction::EnqueueResult => {
                let block = self.selected_hit_tracks();
                proof {
                    lemma_total_concat(self.queue.tracks@, block@);
                }
                if fits(self.queue.total_time, &block) {
                    self.enqueue_search_result();
                }
                Command::Nothing
            },
            KeyAction::TogglePause => Command::TogglePause,
            KeyAction::Shuffle => {
                self.queue.shuffle();
                Command::Nothing
            },
            KeyAction::Enqueue => {
                let block = self.selected_tracks();
                if fits(self.queue.total_time, &block) {
                    proof {
                        lemma_total_concat(self.queue.tracks@, block@);
                    }
                    self.add_to_queue();
                } else {
                    proof {
                        lemma_total_concat(self.queue.tracks@, block@);
                    }
                }
                Command::Nothing
            },
            KeyAction::Clear => {
                self.clear_queue();
                Command::Nothing
            },
            KeyAction::AddFront => {
                let block = self.selected_tracks();
                proof {
                    lemma_total_concat(block@, self.queue.tracks@);
                }
                if fits(self.queue.total_time, &block) {
                    self.add_to_front();
                }
                Command::Nothing
            },
            KeyAction::Up => {
                if self.tabs.index == 1 {
                    self.lib_cols.on_up();
                } else if self.tabs.index == 2 {
                    self.on_up_search();
                }
                Command::Nothing
            },
            KeyAction::Down => {
                if self.tabs.index == 1 {
                    self.lib_cols.on_down();
                } else if self.tabs.index == 2 {
                    self.on_down_search();
                }
                Command::Nothing
            },
            KeyAction::Left => {
                if self.tabs.index == 1 {
                    self.lib_cols.switch_left();
                }
                Command::Nothing
            },
            KeyAction::Right => {
                if self.tabs.index == 1 {
                    self.lib_cols.switch_right();
                }
                Command::Nothing
            },
            KeyAction::Ignore => Command::Nothing,
        }
    }
}

} // verus!
