//! Key handling of the interactive driver: each key, read in the current mode
//! and tab, becomes a change of the application state and an outcome that
//! tells the caller what is left to do outside (text input, hosts-file I/O).

use vstd::prelude::*;
use crate::app::{cycled, decreased, increased, unit_ms, App, TuiMode};
use crate::store::{lemma_step_keeps_clean, lemma_step_keeps_selection, lists_clean, StoreOp};
use crate::text::trim;

verus! {

/// A key press, as the driver reads it.
#[derive(Debug, Clone, Copy, PartialEq, Eq, Structural)]
pub enum Key {
    Char(char),
    Left,
    Right,
    Up,
    Down,
    Tab,
    BackTab,
    Enter,
    Esc,
    Other,
}

/// What the text input is about to receive.
#[derive(Debug, Clone, Copy, PartialEq, Eq, Structural)]
pub enum Prompt {
    ListName,
    WebsiteUrl,
}

/// What is left for the caller after a key was handled.
#[derive(Debug, Clone, Copy, PartialEq, Eq, Structural)]
pub enum KeyOutcome {
    /// Nothing.
    Handled,
    /// Hand the key to the text input.
    EditInput,
    /// Empty the text input.
    ClearInput,
    /// Empty the text input and ask for the given text.
    Prompt(Prompt),
    /// Patch the hosts file, then call `App::start_blocking`.
    StartBlocking,
    /// Restore the hosts file, then call `App::stop_blocking`.
    StopBlocking,
}

impl App {
    /// The tabs are well formed and the timer value is in the range its
    /// steps keep.
    pub open spec fn wf(&self) -> bool {
        self.tabs.wf() && self.time_value <= 125
    }

    /// Number of domains in the selected list; 0 without one.
    pub open spec fn current_len(&self) -> nat {
        match self.selected_list_index {
            Some(i) => if i < self.website_lists@.len() {
                self.website_lists@[i as int].websites@.len()
            } else {
                0
            },
            None => 0,
        }
    }

    /// Selections after the up arrow on the lists tab: the previous domain
    /// if one is selected, else the previous list, wrapping around.
    pub open spec fn after_up(&self) -> App {
        match self.selected_website_index {
            Some(j) => if self.current_len() > 0 {
                App {
                    selected_website_index: Some(
                        if j > 0 {
                            (j - 1) as usize
                        } else {
                            (self.current_len() - 1) as usize
                        },
                    ),
                    ..*self
                }
            } else {
                *self
            },
            None => if self.website_lists@.len() > 0 {
                App {
                    selected_list_index: Some(
                        match self.selected_list_index {
                            Some(i) => if i > 0 {
                                (i - 1) as usize
                            } else {
                                (self.website_lists@.len() - 1) as usize
                            },
                            None => 0usize,
                        },
                    ),
                    ..*self
                }
            } else {
                *self
            },
        }
    }

    /// Selections after the down arrow on the lists tab: the next domain if
    /// one is selected, else the next list, wrapping around.
    pub open spec fn after_down(&self) -> App {
        match self.selected_website_index {
            Some(j) => if self.current_len() > 0 {
                App {
                    selected_website_index: Some(
                        if j + 1 < self.current_len() {
                            (j + 1) as usize
                        } else {
                            0usize
                        },
                    ),
                    ..*self
                }
            } else {
                *self
            },
            None => if self.website_lists@.len() > 0 {
                App {
                    selected_list_index: Some(
                        match self.selected_list_index {
                            Some(i) => if i + 1 < self.website_lists@.len() {
                                (i + 1) as usize
                            } else {
                                0usize
                            },
                            None => 0usize,
                        },
                    ),
                    ..*self
                }
            } else {
                *self
            },
        }
    }

    /// Only the lists, the selections and the status line may differ.
    pub open spec fn same_but_lists_and_status(&self, o: &App) -> bool {
        *self == (App {
            website_lists: self.website_lists,
            selected_list_index: self.selected_list_index,
            selected_website_index: self.selected_website_index,
            status_message: self.status_message,
            ..*o
        })
    }
}

/// A key on the lists tab in normal mode takes `o` to `n` with outcome `r`.
pub open spec fn list_tab_step(o: App, n: App, key: Key, r: KeyOutcome) -> bool {
    match key {
        Key::Left => r == KeyOutcome::Handled && n == (App { selected_website_index: None, ..o }),
        Key::Right => r == KeyOutcome::Handled && n == (App {
            selected_website_index: if o.selected_list_index is Some && o.current_len() > 0 {
                Some(0usize)
            } else {
                o.selected_website_index
            },
            ..o
        }),
        Key::Up => r == KeyOutcome::Handled && n == o.after_up(),
        Key::Down => r == KeyOutcome::Handled && n == o.after_down(),
        Key::Char('n') => r == KeyOutcome::Prompt(Prompt::ListName) && n == (App {
            mode: TuiMode::Editing,
            prompt: Some(Prompt::ListName),
            ..o
        }),
        Key::Char('a') => if o.selected_list_index is Some {
            r == KeyOutcome::Prompt(Prompt::WebsiteUrl) && n == (App {
                mode: TuiMode::Editing,
                prompt: Some(Prompt::WebsiteUrl),
                ..o
            })
        } else {
            &&& r == KeyOutcome::Handled
            &&& n.status_message@ == "Please select a list first"@
            &&& n == (App { status_message: n.status_message, ..o })
        },
        Key::Char('d') => if o.selected_website_index is Some {
            &&& r == KeyOutcome::Handled
            &&& n.store() == o.store().delete_website()
            &&& n.status_message@ == "Website removed"@
            &&& n.same_but_lists_and_status(&o)
        } else {
            r == KeyOutcome::Handled && n == o
        },
        Key::Char('D') => if o.selected_list_index is Some {
            &&& r == KeyOutcome::Handled
            &&& n.store() == o.store().delete_list()
            &&& n.status_message@ == "List removed"@
            &&& n.same_but_lists_and_status(&o)
        } else {
            r == KeyOutcome::Handled && n == o
        },
        _ => r == KeyOutcome::Handled && n == o,
    }
}

/// A key on the timer tab in normal mode takes `o` to `n` with outcome `r`.
pub open spec fn timer_tab_step(o: App, n: App, key: Key, r: KeyOutcome) -> bool {
    match key {
        Key::Up => {
            let v = increased(o.time_unit, o.time_value);
            r == KeyOutcome::Handled && n == (App {
                time_value: v,
                block_duration_ms: (v * unit_ms(o.time_unit)) as u64,
                ..o
            })
        },
        Key::Down => {
            let v = decreased(o.time_unit, o.time_value);
            r == KeyOutcome::Handled && n == (App {
                time_value: v,
                block_duration_ms: (v * unit_ms(o.time_unit)) as u64,
                ..o
            })
        },
        Key::Char('t') => {
            let (u, v) = cycled(o.time_unit);
            r == KeyOutcome::Handled && n == (App {
                time_unit: u,
                time_value: v,
                block_duration_ms: (v * unit_ms(u)) as u64,
                ..o
            })
        },
        Key::Enter => if o.session.state is Idle && o.selected_list_index is Some {
            if o.selected_sites().len() > 0 {
                r == KeyOutcome::StartBlocking && n == o
            } else {
                &&& r == KeyOutcome::Handled
                &&& n.status_message@ == "Selected list has no websites to block"@
                &&& n == (App { status_message: n.status_message, ..o })
            }
        } else {
            r == KeyOutcome::Handled && n == o
        },
        Key::Esc => if o.session.state is Blocking {
            r == KeyOutcome::StopBlocking && n == o
        } else {
            r == KeyOutcome::Handled && n == o
        },
        _ => r == KeyOutcome::Handled && n == o,
    }
}

/// Enter in editing mode with the text `input` takes `o` to `n`: the text
/// names a new list or a domain for the selected list, as the open prompt
/// asked.
pub open spec fn submit_step(o: App, n: App, input: Seq<char>, r: KeyOutcome) -> bool {
    let closed = App { mode: TuiMode::Normal, prompt: None, ..o };
    if input.len() == 0 {
        r == KeyOutcome::Handled && n == o
    } else {
        &&& r == KeyOutcome::ClearInput
        &&& match o.prompt {
            Some(Prompt::ListName) => {
                &&& n.same_but_lists_and_status(&closed)
                &&& n.store() == o.store().add_list(input)
                &&& n.status_message@ == if o.store().accepts_list(input) {
                    "List added successfully"@
                } else {
                    "List name is empty or already taken"@
                }
            },
            Some(Prompt::WebsiteUrl) => {
                &&& n.same_but_lists_and_status(&closed)
                &&& n.store() == o.store().add_website(input)
                &&& n.status_message@ == if o.store().accepts_website(input) {
                    "Website added successfully"@
                } else {
                    "Website is empty, already listed, or no list is selected"@
                }
            },
            None => n == closed,
        }
    }
}

/// Any key, in any mode, takes `o` to `n` with outcome `r`; `input` is the
/// text being edited.
pub open spec fn key_step(o: App, n: App, key: Key, input: Seq<char>, r: KeyOutcome) -> bool {
    match o.mode {
        TuiMode::Normal => match key {
            Key::Char('q') => r == KeyOutcome::Handled && n == (App { running: false, ..o }),
            Key::Char('?') => r == KeyOutcome::Handled && n == (App { mode: TuiMode::Help, ..o }),
            Key::Tab => {
                &&& r == KeyOutcome::Handled
                &&& n == (App { tabs: n.tabs, ..o })
                &&& n.tabs.titles@ == o.tabs.titles@
                &&& n.tabs.index == (o.tabs.index + 1) % (o.tabs.titles@.len() as int)
            },
            Key::BackTab => {
                &&& r == KeyOutcome::Handled
                &&& n == (App { tabs: n.tabs, ..o })
                &&& n.tabs.titles@ == o.tabs.titles@
                &&& n.tabs.index == if o.tabs.index > 0 {
                    o.tabs.index - 1
                } else {
                    o.tabs.titles@.len() - 1
                }
            },
            _ => if o.tabs.index == 0 {
                list_tab_step(o, n, key, r)
            } else if o.tabs.index == 1 {
                timer_tab_step(o, n, key, r)
            } else {
                r == KeyOutcome::Handled && n == o
            },
        },
        TuiMode::Editing => match key {
            Key::Esc => r == KeyOutcome::Handled && n == (App {
                mode: TuiMode::Normal,
                prompt: None,
                ..o
            }),
            Key::Enter => submit_step(o, n, input, r),
            _ => r == KeyOutcome::EditInput && n == o,
        },
        TuiMode::Help => match key {
            Key::Esc | Key::Char('q') | Key::Char('?') => r == KeyOutcome::Handled && n == (App {
                mode: TuiMode::Normal,
                ..o
            }),
            _ => r == KeyOutcome::Handled && n == o,
        },
    }
}

impl App {
    fn handle_website_list_tab_events(&mut self, key: Key) -> (r: KeyOutcome)
        ensures
            list_tab_step(*old(self), *final(self), key, r),
    {
        match key {
            Key::Left => {
                self.selected_website_index = None;
            },
            Key::Right => {
                if self.selected_list_index.is_some() {
                    if let Some(list) = self.current_website_list() {
                        if list.websites.len() > 0 {
                            self.selected_website_index = Some(0);
                        }
                    }
                }
            },
            Key::Up => {
                if self.selected_website_index.is_some() {
                    let websites_len = match self.current_website_list() {
                        Some(list) => list.websites.len(),
                        None => 0,
                    };
                    if websites_len > 0 {
                        let i = match self.selected_website_index {
                            Some(i) => if i > 0 {
                                i - 1
                            } else {
                                websites_len - 1
                            },
                            None => 0,
                        };
                        self.selected_website_index = Some(i);
                    }
                } else {
                    let lists_len = self.website_lists.len();
                    if lists_len > 0 {
                        let i = match self.selected_list_index {
                            Some(i) => if i > 0 {
                                i - 1
                            } else {
                                lists_len - 1
                            },
                            None => 0,
                        };
                        self.selected_list_index = Some(i);
                    }
                }
            },
            Key::Down => {
                if self.selected_website_index.is_some() {
                    let websites_len = match self.current_website_list() {
                        Some(list) => list.websites.len(),
                        None => 0,
                    };
                    if websites_len > 0 {
                        let i = match self.selected_website_index {
                            Some(i) => if i < websites_len - 1 {
                                i + 1
                            } else {
                                0
                            },
                            None => 0,
                        };
                        self.selected_website_index = Some(i);
                    }
                } else {
                    let lists_len = self.website_lists.len();
                    if lists_len > 0 {
                        let i = match self.selected_list_index {
                            Some(i) => if i < lists_len - 1 {
                                i + 1
                            } else {
                                0
                            },
                            None => 0,
                        };
                        self.selected_list_index = Some(i);
                    }
                }
            },
            Key::Char('n') => {
                self.mode = TuiMode::Editing;
                self.prompt = Some(Prompt::ListName);
                return KeyOutcome::Prompt(Prompt::ListName);
            },
            Key::Char('a') => {
                if self.selected_list_index.is_some() {
                    self.mode = TuiMode::Editing;
                    self.prompt = Some(Prompt::WebsiteUrl);
                    return KeyOutcome::Prompt(Prompt::WebsiteUrl);
                } else {
                    self.status_message = "Please select a list first".to_owned();
                }
            },
            Key::Char('d') => {
                if self.selected_website_index.is_some() {
                    self.delete_website();
                    self.status_message = "Website removed".to_owned();
                }
            },
            Key::Char('D') => {
                if self.selected_list_index.is_some() {
                    self.delete_list();
                    self.status_message = "List removed".to_owned();
                }
            },
            _ => {},
        }
        KeyOutcome::Handled
    }

    fn selected_count(&self) -> (r: usize)
        ensures
            r == self.current_len(),
    {
        match self.current_website_list() {
            Some(list) => list.websites.len(),
            None => 0,
        }
    }

    fn handle_timer_tab_events(&mut self, key: Key) -> (r: KeyOutcome)
        requires
            old(self).wf(),
        ensures
            timer_tab_step(*old(self), *final(self), key, r),
    {
        match key {
            Key::Up => {
                self.increase_time();
            },
            Key::Down => {
                self.decrease_time();
            },
            Key::Char('t') => {
                self.cycle_time_unit();
            },
            Key::Enter => {
                if !self.is_blocking() && self.selected_list_index.is_some() {
                    let websites = self.current_websites();
                    if websites.len() > 0 {
                        return KeyOutcome::StartBlocking;
                    } else {
                        self.status_message = "Selected list has no websites to block".to_owned();
                    }
                }
            },
            Key::Esc => {
                if self.is_blocking() {
                    return KeyOutcome::StopBlocking;
                }
            },
            _ => {},
        }
        KeyOutcome::Handled
    }

    /// Handles one key press; `input` is the text being edited.
    pub fn handle_key(&mut self, key: Key, input: &str) -> (r: KeyOutcome)
        requires
            old(self).wf(),
        ensures
            key_step(*old(self), *final(self), key, input@, r),
            final(self).wf(),
            old(self).store().selection_valid() ==> final(self).store().selection_valid(),
            lists_clean(old(self).store().lists) ==> lists_clean(final(self).store().lists),
    {
        proof {
            if lists_clean(self.store().lists) {
                lemma_step_keeps_clean(self.store(), StoreOp::DeleteWebsite);
                lemma_step_keeps_clean(self.store(), StoreOp::DeleteList);
                lemma_step_keeps_clean(self.store(), StoreOp::AddWebsite(input@));
                lemma_step_keeps_clean(self.store(), StoreOp::AddList(input@));
            }
            if self.store().selection_valid() {
                lemma_step_keeps_selection(self.store(), StoreOp::DeleteWebsite);
                lemma_step_keeps_selection(self.store(), StoreOp::DeleteList);
                lemma_step_keeps_selection(self.store(), StoreOp::AddWebsite(input@));
                lemma_step_keeps_selection(self.store(), StoreOp::AddList(input@));
            }
        }
        match self.mode {
            TuiMode::Normal => match key {
                Key::Char('q') => {
                    self.running = false;
                    KeyOutcome::Handled
                },
                Key::Char('?') => {
                    self.mode = TuiMode::Help;
                    KeyOutcome::Handled
                },
                Key::Tab => {
                    self.tabs.next();
                    KeyOutcome::Handled
                },
                Key::BackTab => {
                    self.tabs.previous();
                    KeyOutcome::Handled
                },
                _ => {
                    if self.tabs.index == 0 {
                        self.handle_website_list_tab_events(key)
                    } else if self.tabs.index == 1 {
                        self.handle_timer_tab_events(key)
                    } else {
                        KeyOutcome::Handled
                    }
                },
            },
            TuiMode::Editing => match key {
                Key::Esc => {
                    self.mode = TuiMode::Normal;
                    self.prompt = None;
                    KeyOutcome::Handled
                },
                Key::Enter => {
                    if input.is_empty() {
                        return KeyOutcome::Handled;
                    }
                    match self.prompt {
                        Some(Prompt::ListName) => {
                            let before = self.website_lists.len();
                            let ghost o = self.store();
                            self.add_list(input.to_owned());
                            assert(self.store().lists.len() == self.website_lists@.len());
                            assert(o.lists.len() == before);
                            if self.website_lists.len() > before {
                                self.status_message = "List added successfully".to_owned();
                            } else {
                                self.status_message = "List name is empty or already taken".to_owned();
                            }
                        },
                        Some(Prompt::WebsiteUrl) => {
                            let before = self.selected_count();
                            let ghost o = self.store();
                            self.add_website(input.to_owned());
                            proof {
                                if o.accepts_website(input@) {
                                    let i = o.list_sel->0;
                                    assert(self.store().lists[i as int].websites
                                        == o.lists[i as int].websites.push(trim(input@)));
                                    assert(self.selected_list_index == Some(i));
                                    assert(self.store().lists.len() == self.website_lists@.len());
                                    assert(self.store().lists[i as int] == self.website_lists@[i as int]@);
                                    assert(self.store().lists[i as int].websites.len()
                                        == self.current_len());
                                    assert(o.lists[i as int].websites.len() == before);
                                } else {
                                    assert(self.store() == o);
                                }
                            }
                            if self.selected_count() > before {
                                self.status_message = "Website added successfully".to_owned();
                            } else {
                                self.status_message =
                                    "Website is empty, already listed, or no list is selected".to_owned();
                            }
                        },
                        None => {},
                    }
                    self.mode = TuiMode::Normal;
                    self.prompt = None;
                    KeyOutcome::ClearInput
                },
                _ => KeyOutcome::EditInput,
            },
            TuiMode::Help => match key {
                Key::Esc | Key::Char('q') | Key::Char('?') => {
                    self.mode = TuiMode::Normal;
                    KeyOutcome::Handled
                },
                _ => KeyOutcome::Handled,
            },
        }
    }
}

} // verus!
