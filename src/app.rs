//! The interactive application's state: website lists with their selections,
//! the timer setting, the blocking session and the status line.

use vstd::prelude::*;
use crate::hosts::HostFiles;
use crate::session::{BlockingSession, SessionState, StartError};
use crate::store::{list_views, lists_clean, lists_well_formed, reselect, ListView, StoreModel, WebsiteList};
use crate::text::{append_str, clone_strings, string_of, trim_str, views};
use crate::ui::{TabsState, TimeUnit};
use crate::duration::{duration_text, push_duration_text};
use crate::driver::Prompt;

verus! {

/// Mode of the interface.
#[derive(Debug, Clone, Copy, PartialEq, Eq, Structural)]
pub enum TuiMode {
    /// Navigation.
    Normal,
    /// Text input.
    Editing,
    /// Help screen.
    Help,
}

/// The application's state.
pub struct App {
    pub running: bool,
    pub tabs: TabsState,
    pub mode: TuiMode,
    pub status_message: String,
    pub website_lists: Vec<WebsiteList>,
    pub selected_list_index: Option<usize>,
    pub selected_website_index: Option<usize>,
    pub session: BlockingSession,
    pub block_duration_ms: u64,
    pub time_unit: TimeUnit,
    pub time_value: u64,
    /// What the text being edited is for, while editing.
    pub prompt: Option<Prompt>,
}

proof fn lemma_replace_at(v: Seq<WebsiteList>, i: int, x: WebsiteList)
    requires
        0 <= i < v.len(),
    ensures
        list_views(v.remove(i).insert(i, x)) == list_views(v).update(i, x@),
{
    assert(list_views(v.remove(i).insert(i, x)) =~= list_views(v).update(i, x@));
}

impl App {
    /// The lists and selections, as a model.
    pub open spec fn store(&self) -> StoreModel {
        StoreModel {
            lists: list_views(self.website_lists@),
            list_sel: self.selected_list_index,
            site_sel: self.selected_website_index,
        }
    }

    /// `self` and `other` agree on all but the lists and selections.
    pub open spec fn same_besides_store(&self, other: &App) -> bool {
        &&& self.running == other.running
        &&& self.tabs == other.tabs
        &&& self.mode == other.mode
        &&& self.status_message == other.status_message
        &&& self.session == other.session
        &&& self.block_duration_ms == other.block_duration_ms
        &&& self.time_unit == other.time_unit
        &&& self.time_value == other.time_value
        &&& self.prompt == other.prompt
    }

    /// A running application on the first of two tabs, with no lists, idle,
    /// set to block for 25 minutes.
    pub fn new() -> (r: App)
        ensures
            r.running,
            r.tabs.titles@ == seq!["Website Lists", "Timer"],
            r.tabs.index == 0,
            r.mode == TuiMode::Normal,
            r.status_message@ == Seq::<char>::empty(),
            r.website_lists@.len() == 0,
            r.selected_list_index is None,
            r.selected_website_index is None,
            r.session.state == SessionState::Idle,
            r.block_duration_ms == 1_500_000,
            r.time_unit == TimeUnit::Minutes,
            r.time_value == 25,
            r.prompt is None,
    {
        App {
            running: true,
            tabs: TabsState::new(vec!["Website Lists", "Timer"]),
            mode: TuiMode::Normal,
            status_message: String::new(),
            website_lists: Vec::new(),
            selected_list_index: None,
            selected_website_index: None,
            session: BlockingSession::new(),
            block_duration_ms: 25 * 60 * 1000,
            time_unit: TimeUnit::Minutes,
            time_value: 25,
            prompt: None,
        }
    }

    /// The domains of the selected list; none if no list is selected.
    pub fn current_websites(&self) -> (r: Vec<String>)
        ensures
            views(r@) == match self.selected_list_index {
                Some(i) => if i < self.website_lists@.len() {
                    self.store().lists[i as int].websites
                } else {
                    Seq::empty()
                },
                None => Seq::empty(),
            },
    {
        if let Some(index) = self.selected_list_index {
            if index < self.website_lists.len() {
                return clone_strings(&self.website_lists[index].websites);
            }
        }
        let r: Vec<String> = Vec::new();
        assert(views(r@) =~= Seq::<Seq<char>>::empty());
        r
    }

    /// The selected list, if one is selected.
    pub fn current_website_list(&self) -> (r: Option<&WebsiteList>)
        ensures
            r == match self.selected_list_index {
                Some(i) => if i < self.website_lists@.len() {
                    Some(&self.website_lists@[i as int])
                } else {
                    None
                },
                None => None,
            },
    {
        if let Some(index) = self.selected_list_index {
            if index < self.website_lists.len() {
                return Some(&self.website_lists[index]);
            }
        }
        None
    }

    /// Adds `website`, trimmed, to the selected list unless it is blank or
    /// already there, and selects it.
    pub fn add_website(&mut self, website: String)
        ensures
            final(self).store() == old(self).store().add_website(website@),
            final(self).same_besides_store(old(self)),
    {
        if let Some(index) = self.selected_list_index {
            if index < self.website_lists.len() {
                let cleaned = trim_str(website.as_str());
                if !cleaned.as_str().is_empty() {
                    let ghost l = self.store().lists[index as int];
                    let mut found = false;
                    let mut k: usize = 0;
                    let n = self.website_lists[index].websites.len();
                    while k < n
                        invariant
                            index < self.website_lists@.len(),
                            n == self.website_lists@[index as int].websites@.len(),
                            l == self.website_lists@[index as int]@,
                            k <= n,
                            found <==> exists|m: int|
                                0 <= m < k && #[trigger] l.websites[m] == cleaned@,
                        decreases n - k,
                    {
                        assert(l.websites[k as int]
                            == self.website_lists@[index as int].websites@[k as int]@);
                        if self.website_lists[index].websites[k] == cleaned {
                            found = true;
                        }
                        k += 1;
                    }
                    if !found {
                        let ghost before = self.website_lists@;
                        let mut list = self.website_lists.remove(index);
                        let ghost old_sites = list.websites@;
                        list.websites.push(cleaned);
                        let new_index = list.websites.len() - 1;
                        proof {
                            lemma_replace_at(before, index as int, list);
                            assert(views(list.websites@) =~= views(old_sites).push(cleaned@));
                        }
                        self.website_lists.insert(index, list);
                        self.selected_website_index = Some(new_index);
                        assert(self.store().lists =~= old(self).store().lists.update(
                            index as int,
                            ListView {
                                name: l.name,
                                websites: l.websites.push(cleaned@),
                            },
                        ));
                    } else {
                        assert(l.websites.contains(cleaned@));
                    }
                }
            }
        }
    }

    /// Removes the selected domain of the selected list and selects the one
    /// now at its index, or the last; none when the list is left empty.
    pub fn delete_website(&mut self)
        ensures
            final(self).store() == old(self).store().delete_website(),
            final(self).same_besides_store(old(self)),
    {
        if let (Some(list_index), Some(website_index)) = (
            self.selected_list_index,
            self.selected_website_index,
        ) {
            if list_index < self.website_lists.len() {
                if website_index < self.website_lists[list_index].websites.len() {
                    let ghost l = self.store().lists[list_index as int];
                    let ghost before = self.website_lists@;
                    let mut list = self.website_lists.remove(list_index);
                    let ghost old_sites = list.websites@;
                    list.websites.remove(website_index);
                    let len = list.websites.len();
                    proof {
                        lemma_replace_at(before, list_index as int, list);
                        assert(views(list.websites@) =~= views(old_sites).remove(
                            website_index as int,
                        ));
                    }
                    self.website_lists.insert(list_index, list);
                    if len == 0 {
                        self.selected_website_index = None;
                    } else {
                        let new_index = if website_index >= len {
                            len - 1
                        } else {
                            website_index
                        };
                        self.selected_website_index = Some(new_index);
                    }
                    assert(self.store().lists =~= old(self).store().lists.update(
                        list_index as int,
                        ListView {
                            name: l.name,
                            websites: l.websites.remove(website_index as int),
                        },
                    ));
                }
            }
        }
    }

    /// Appends a list named `name`, trimmed, unless blank or taken, and
    /// selects it, with no domain selected.
    pub fn add_list(&mut self, name: String)
        ensures
            final(self).store() == old(self).store().add_list(name@),
            final(self).same_besides_store(old(self)),
    {
        let cleaned = trim_str(name.as_str());
        if !cleaned.as_str().is_empty() {
            let ghost s = self.store();
            let mut taken = false;
            let mut k: usize = 0;
            while k < self.website_lists.len()
                invariant
                    s == self.store(),
                    k <= self.website_lists@.len(),
                    taken <==> exists|m: int|
                        0 <= m < k && #[trigger] s.lists[m].name == cleaned@,
                decreases self.website_lists@.len() - k,
            {
                assert(s.lists[k as int].name == self.website_lists@[k as int].name@);
                if self.website_lists[k].name == cleaned {
                    taken = true;
                }
                k += 1;
            }
            if !taken {
                let websites: Vec<String> = Vec::new();
                self.website_lists.push(WebsiteList { name: cleaned, websites });
                self.selected_list_index = Some(self.website_lists.len() - 1);
                self.selected_website_index = None;
                assert(views(websites@) =~= Seq::<Seq<char>>::empty());
                assert(self.store().lists =~= s.lists.push(
                    ListView { name: cleaned@, websites: Seq::empty() },
                ));
            }
        }
    }

    /// Removes the selected list and selects the one now at its index, or
    /// the last; no domain is selected.
    pub fn delete_list(&mut self)
        ensures
            final(self).store() == old(self).store().delete_list(),
            final(self).same_besides_store(old(self)),
    {
        if let Some(index) = self.selected_list_index {
            if index < self.website_lists.len() {
                self.website_lists.remove(index);
                let len = self.website_lists.len();
                if len == 0 {
                    self.selected_list_index = None;
                } else {
                    let new_index = if index >= len {
                        len - 1
                    } else {
                        index
                    };
                    self.selected_list_index = Some(new_index);
                }
                self.selected_website_index = None;
                assert(self.store().lists =~= old(self).store().lists.remove(index as int));
                assert(self.selected_list_index == reselect(index, self.store().lists.len()));
            }
        }
    }
}


/// Milliseconds in one of `unit`.
pub open spec fn unit_ms(unit: TimeUnit) -> nat {
    match unit {
        TimeUnit::Minutes => 60_000,
        TimeUnit::Hours => 3_600_000,
        TimeUnit::Seconds => 1000,
    }
}

/// The timer value after one step up.
pub open spec fn increased(unit: TimeUnit, v: u64) -> u64 {
    match unit {
        TimeUnit::Minutes => if v < 120 {
            (v + 5) as u64
        } else {
            v
        },
        TimeUnit::Hours => if v < 8 {
            (v + 1) as u64
        } else {
            v
        },
        TimeUnit::Seconds => if v < 55 {
            (v + 5) as u64
        } else {
            60
        },
    }
}

/// The timer value after one step down.
pub open spec fn decreased(unit: TimeUnit, v: u64) -> u64 {
    match unit {
        TimeUnit::Minutes => if v > 5 {
            (v - 5) as u64
        } else {
            1
        },
        TimeUnit::Hours => if v > 1 {
            (v - 1) as u64
        } else {
            v
        },
        TimeUnit::Seconds => if v > 10 {
            (v - 5) as u64
        } else {
            5
        },
    }
}

/// The next unit and its starting value.
pub open spec fn cycled(unit: TimeUnit) -> (TimeUnit, u64) {
    match unit {
        TimeUnit::Minutes => (TimeUnit::Hours, 1),
        TimeUnit::Hours => (TimeUnit::Seconds, 30),
        TimeUnit::Seconds => (TimeUnit::Minutes, 25),
    }
}

/// `v` of `unit` fits a millisecond count.
pub open spec fn fits(unit: TimeUnit, v: u64) -> bool {
    v * unit_ms(unit) <= u64::MAX
}

impl App {
    /// Sets the welcome line.
    pub fn init(&mut self)
        ensures
            *final(self) == (App { status_message: final(self).status_message, ..*old(self) }),
            final(self).status_message@ == "Welcome to TimeGuardian! Press '?' for help."@,
    {
        self.status_message = "Welcome to TimeGuardian! Press '?' for help.".to_owned();
    }

    fn update_blocking_duration(&mut self)
        requires
            fits(old(self).time_unit, old(self).time_value),
        ensures
            *final(self) == (App {
                block_duration_ms: (old(self).time_value * unit_ms(old(self).time_unit)) as u64,
                ..*old(self)
            }),
    {
        match self.time_unit {
            TimeUnit::Minutes => {
                self.block_duration_ms = self.time_value * 60 * 1000;
            },
            TimeUnit::Hours => {
                self.block_duration_ms = self.time_value * 60 * 60 * 1000;
            },
            TimeUnit::Seconds => {
                self.block_duration_ms = self.time_value * 1000;
            },
        }
    }

    /// Steps the timer value up: by 5 minutes up to 125, by an hour up to 9,
    /// by 5 seconds up to 60.
    pub fn increase_time(&mut self)
        requires
            fits(old(self).time_unit, increased(old(self).time_unit, old(self).time_value)),
        ensures
            ({
                let v = increased(old(self).time_unit, old(self).time_value);
                *final(self) == (App {
                    time_value: v,
                    block_duration_ms: (v * unit_ms(old(self).time_unit)) as u64,
                    ..*old(self)
                })
            }),
    {
        match self.time_unit {
            TimeUnit::Minutes => {
                if self.time_value < 120 {
                    self.time_value += 5;
                }
            },
            TimeUnit::Hours => {
                if self.time_value < 8 {
                    self.time_value += 1;
                }
            },
            TimeUnit::Seconds => {
                if self.time_value < 55 {
                    self.time_value += 5;
                } else {
                    self.time_value = 60;
                }
            },
        }
        self.update_blocking_duration();
    }

    /// Steps the timer value down: by 5 minutes to no less than 1, by an hour
    /// to no less than 1, by 5 seconds to no less than 5.
    pub fn decrease_time(&mut self)
        requires
            fits(old(self).time_unit, decreased(old(self).time_unit, old(self).time_value)),
        ensures
            ({
                let v = decreased(old(self).time_unit, old(self).time_value);
                *final(self) == (App {
                    time_value: v,
                    block_duration_ms: (v * unit_ms(old(self).time_unit)) as u64,
                    ..*old(self)
                })
            }),
    {
        match self.time_unit {
            TimeUnit::Minutes => {
                if self.time_value > 5 {
                    self.time_value -= 5;
                } else {
                    self.time_value = 1;
                }
            },
            TimeUnit::Hours => {
                if self.time_value > 1 {
                    self.time_value -= 1;
                }
            },
            TimeUnit::Seconds => {
                if self.time_value > 10 {
                    self.time_value -= 5;
                } else {
                    self.time_value = 5;
                }
            },
        }
        self.update_blocking_duration();
    }

    /// Moves to the next unit (minutes, hours, seconds, minutes) at its
    /// starting value: 1 hour, 30 seconds, 25 minutes.
    pub fn cycle_time_unit(&mut self)
        ensures
            ({
                let (u, v) = cycled(old(self).time_unit);
                *final(self) == (App {
                    time_unit: u,
                    time_value: v,
                    block_duration_ms: (v * unit_ms(u)) as u64,
                    ..*old(self)
                })
            }),
    {
        match self.time_unit {
            TimeUnit::Minutes => {
                self.time_unit = TimeUnit::Hours;
                self.time_value = 1;
            },
            TimeUnit::Hours => {
                self.time_unit = TimeUnit::Seconds;
                self.time_value = 30;
            },
            TimeUnit::Seconds => {
                self.time_unit = TimeUnit::Minutes;
                self.time_value = 25;
            },
        }
        self.update_blocking_duration();
    }

    /// The session length the timer is set to.
    pub fn get_blocking_milliseconds(&self) -> (r: u64)
        ensures
            r == self.block_duration_ms,
    {
        self.block_duration_ms
    }

    /// `duration_ms` as hours, minutes and seconds (see `duration_text`).
    pub fn format_duration(&self, duration_ms: u64) -> (r: String)
        ensures
            r@ == duration_text(duration_ms as nat),
    {
        let mut out: Vec<char> = Vec::new();
        push_duration_text(&mut out, duration_ms);
        assert(out@ =~= duration_text(duration_ms as nat));
        string_of(&out)
    }
}

impl App {
    /// The domains of the selected list, as `current_websites` returns them.
    pub open spec fn selected_sites(&self) -> Seq<Seq<char>> {
        match self.selected_list_index {
            Some(i) => if i < self.website_lists@.len() {
                self.store().lists[i as int].websites
            } else {
                Seq::empty()
            },
            None => Seq::empty(),
        }
    }

    pub fn is_blocking(&self) -> (r: bool)
        ensures
            r == (self.session.state is Blocking),
    {
        self.session.is_blocking()
    }

    /// Installs `lists`, if they are clean, and selects the first list and
    /// its first domain, where there are; tells whether it installed them.
    pub fn set_website_lists(&mut self, lists: Vec<WebsiteList>) -> (r: bool)
        ensures
            r == lists_clean(list_views(lists@)),
            r ==> final(self).website_lists@ == lists@,
            r ==> final(self).selected_list_index == if lists@.len() > 0 {
                Some(0usize)
            } else {
                old(self).selected_list_index
            },
            r ==> final(self).selected_website_index == if lists@.len() > 0
                && lists@[0].websites@.len() > 0 {
                Some(0usize)
            } else {
                old(self).selected_website_index
            },
            r ==> final(self).same_besides_store(old(self)),
            !r ==> *final(self) == *old(self),
    {
        if !lists_well_formed(&lists) {
            return false;
        }
        self.website_lists = lists;
        if self.website_lists.len() > 0 {
            self.selected_list_index = Some(0);
            if self.website_lists[0].websites.len() > 0 {
                self.selected_website_index = Some(0);
            }
        }
        true
    }

    /// Starts a session on the selected list's domains for the set length,
    /// from `now`: takes the backup if needed, patches `files` and reports
    /// the length on the status line. On a refusal nothing changes.
    pub fn start_blocking(&mut self, files: &mut HostFiles, now: u64) -> (r: Result<
        (),
        StartError,
    >)
        requires
            old(self).session.state is Idle,
        ensures
            old(self).selected_sites().len() == 0 ==> r == Err::<(), StartError>(
                StartError::NoDomains,
            ),
            old(self).selected_sites().len() > 0 && old(self).block_duration_ms == 0 ==> r
                == Err::<(), StartError>(StartError::ZeroDuration),
            old(self).selected_sites().len() > 0 && old(self).block_duration_ms > 0 ==> r is Ok,
            r is Ok ==> final(files)@ == old(files)@.with_backup().blocked(
                old(self).selected_sites(),
            ),
            r is Ok ==> final(self).session.state == (SessionState::Blocking {
                started_at: now,
                duration_ms: old(self).block_duration_ms,
            }),
            r is Ok ==> final(self).status_message@ == "Blocking websites for \""@
                + duration_text(old(self).block_duration_ms as nat) + seq!['"'],
            r is Ok ==> *final(self) == (App {
                session: final(self).session,
                status_message: final(self).status_message,
                ..*old(self)
            }),
            r is Err ==> *final(self) == *old(self) && *final(files) == *old(files),
    {
        let websites = self.current_websites();
        let duration = self.block_duration_ms;
        let r = self.session.start(files, &websites, now, duration, String::new());
        if r.is_ok() {
            let mut out: Vec<char> = Vec::new();
            append_str(&mut out, "Blocking websites for \"");
            push_duration_text(&mut out, duration);
            out.push('"');
            self.status_message = string_of(&out);
        }
        r
    }

    /// Ends the session, restoring the hosts content from the backup.
    pub fn stop_blocking(&mut self, files: &mut HostFiles)
        ensures
            final(self).session.state == SessionState::Idle,
            final(files)@ == old(files)@.restored(),
            final(self).status_message@ == "Website blocking stopped"@,
            *final(self) == (App {
                session: final(self).session,
                status_message: final(self).status_message,
                ..*old(self)
            }),
            final(self).session.task == old(self).session.task,
    {
        self.session.stop(files);
        self.status_message = "Website blocking stopped".to_owned();
    }

    /// Ends the session if its time is up at `now`, as `stop_blocking`
    /// does; tells whether it did.
    pub fn tick(&mut self, files: &mut HostFiles, now: u64) -> (ended: bool)
        ensures
            ended == old(self).session.state.expired_at(now),
            final(self).session.state == old(self).session.state.after_tick(now),
            ended ==> final(files)@ == old(files)@.restored(),
            ended ==> final(self).status_message@ == "Website blocking stopped"@,
            ended ==> *final(self) == (App {
                session: final(self).session,
                status_message: final(self).status_message,
                ..*old(self)
            }),
            ended ==> final(self).session.task == old(self).session.task,
            !ended ==> *final(self) == *old(self) && *final(files) == *old(files),
    {
        let ended = self.session.tick(files, now);
        if ended {
            self.status_message = "Website blocking stopped".to_owned();
        }
        ended
    }

    /// Milliseconds left in the session at `now`; none when idle.
    pub fn get_remaining_time(&self, now: u64) -> (r: Option<u64>)
        ensures
            r == self.session.state.remaining_at(now),
    {
        self.session.remaining_time(now)
    }
}

} // verus!
