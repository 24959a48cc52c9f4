//! The model of the website lists and the two selections over them.

use vstd::prelude::*;
use crate::text::{lemma_trim_idempotent, trim, trim_str, views};

verus! {

/// A named list of domains.
pub struct WebsiteList {
    pub name: String,
    pub websites: Vec<String>,
}

/// What a `WebsiteList` holds, as character sequences.
pub struct ListView {
    pub name: Seq<char>,
    pub websites: Seq<Seq<char>>,
}

impl View for WebsiteList {
    type V = ListView;

    open spec fn view(&self) -> ListView {
        ListView { name: self.name@, websites: views(self.websites@) }
    }
}

/// The views of a sequence of lists.
pub open spec fn list_views(v: Seq<WebsiteList>) -> Seq<ListView> {
    v.map_values(|l: WebsiteList| l@)
}

/// `t` is non-empty text without leading or trailing white space.
pub open spec fn clean_text(t: Seq<char>) -> bool {
    t.len() > 0 && trim(t) == t
}

/// The lists hold clean, distinct names and clean domains.
pub open spec fn lists_clean(lists: Seq<ListView>) -> bool {
    &&& forall|i: int| 0 <= i < lists.len() ==> clean_text(#[trigger] lists[i].name)
    &&& forall|i: int, j: int|
        0 <= i < lists.len() && 0 <= j < lists.len() && i != j ==> #[trigger] lists[i].name
            != #[trigger] lists[j].name
    &&& forall|i: int, k: int|
        0 <= i < lists.len() && 0 <= k < lists[i].websites.len() ==> clean_text(
            #[trigger] lists[i].websites[k],
        )
}

/// The lists, the selected list and the selected domain within it.
pub struct StoreModel {
    pub lists: Seq<ListView>,
    pub list_sel: Option<usize>,
    pub site_sel: Option<usize>,
}

/// One of the operations that add or delete lists and domains.
pub enum StoreOp {
    AddList(Seq<char>),
    DeleteList,
    AddWebsite(Seq<char>),
    DeleteWebsite,
}

/// The index that stays selected after removing index `i` from a sequence
/// now `len` long.
pub open spec fn reselect(i: usize, len: nat) -> Option<usize> {
    if len == 0 {
        None
    } else if i >= len {
        Some((len - 1) as usize)
    } else {
        Some(i)
    }
}

impl StoreModel {
    /// A selected domain always lies in the selected list, and a selected
    /// list exists.
    pub open spec fn selection_valid(self) -> bool {
        &&& (self.list_sel matches Some(i) ==> i < self.lists.len())
        &&& (self.site_sel matches Some(j) ==> (self.list_sel matches Some(i) && i
            < self.lists.len() && j < self.lists[i as int].websites.len()))
    }

    pub open spec fn has_list_named(self, name: Seq<char>) -> bool {
        exists|i: int| 0 <= i < self.lists.len() && #[trigger] self.lists[i].name == name
    }

    /// `add_list(name)` takes effect: the trimmed name is neither empty nor
    /// taken.
    pub open spec fn accepts_list(self, name: Seq<char>) -> bool {
        trim(name).len() > 0 && !self.has_list_named(trim(name))
    }

    /// `add_website(domain)` takes effect: a list is selected and the trimmed
    /// domain is neither empty nor in it.
    pub open spec fn accepts_website(self, domain: Seq<char>) -> bool {
        match self.list_sel {
            Some(i) => i < self.lists.len() && trim(domain).len() > 0
                && !self.lists[i as int].websites.contains(trim(domain)),
            None => false,
        }
    }

    /// After `add_list(name)`: the trimmed name, unless blank or taken, is
    /// appended as an empty list and selected, with no domain selected.
    pub open spec fn add_list(self, name: Seq<char>) -> StoreModel {
        let t = trim(name);
        if self.accepts_list(name) {
            StoreModel {
                lists: self.lists.push(ListView { name: t, websites: Seq::empty() }),
                list_sel: Some(self.lists.len() as usize),
                site_sel: None,
            }
        } else {
            self
        }
    }

    /// After `delete_list()`: the selected list is removed; the list now at
    /// its index, or else the last one, is selected; no domain is selected.
    pub open spec fn delete_list(self) -> StoreModel {
        match self.list_sel {
            Some(i) => if i < self.lists.len() {
                let lists = self.lists.remove(i as int);
                StoreModel { lists, list_sel: reselect(i, lists.len()), site_sel: None }
            } else {
                self
            },
            None => self,
        }
    }

    /// After `add_website(domain)`: the trimmed domain, unless blank or
    /// already in the selected list, is appended to it and selected.
    pub open spec fn add_website(self, domain: Seq<char>) -> StoreModel {
        match self.list_sel {
            Some(i) => if i < self.lists.len() {
                let t = trim(domain);
                let l = self.lists[i as int];
                if t.len() > 0 && !l.websites.contains(t) {
                    StoreModel {
                        lists: self.lists.update(
                            i as int,
                            ListView { name: l.name, websites: l.websites.push(t) },
                        ),
                        list_sel: self.list_sel,
                        site_sel: Some(l.websites.len() as usize),
                    }
                } else {
                    self
                }
            } else {
                self
            },
            None => self,
        }
    }

    /// After `delete_website()`: the selected domain is removed from the
    /// selected list; the domain now at its index, or else the last one, is
    /// selected.
    pub open spec fn delete_website(self) -> StoreModel {
        match (self.list_sel, self.site_sel) {
            (Some(i), Some(j)) => if i < self.lists.len() && j < self.lists[i as int].websites.len() {
                let l = self.lists[i as int];
                let websites = l.websites.remove(j as int);
                StoreModel {
                    lists: self.lists.update(i as int, ListView { name: l.name, websites }),
                    list_sel: self.list_sel,
                    site_sel: reselect(j, websites.len()),
                }
            } else {
                self
            },
            _ => self,
        }
    }

    pub open spec fn step(self, op: StoreOp) -> StoreModel {
        match op {
            StoreOp::AddList(name) => self.add_list(name),
            StoreOp::DeleteList => self.delete_list(),
            StoreOp::AddWebsite(domain) => self.add_website(domain),
            StoreOp::DeleteWebsite => self.delete_website(),
        }
    }

    /// The store after each of `ops` in turn.
    pub open spec fn run(self, ops: Seq<StoreOp>) -> StoreModel
        decreases ops.len(),
    {
        if ops.len() == 0 {
            self
        } else {
            self.run(ops.drop_last()).step(ops.last())
        }
    }
}

/// Every operation keeps the lists clean.
pub proof fn lemma_step_keeps_clean(s: StoreModel, op: StoreOp)
    requires
        lists_clean(s.lists),
    ensures
        lists_clean(s.step(op).lists),
{
    let n = s.step(op).lists;
    match op {
        StoreOp::AddList(name) => {
            lemma_trim_idempotent(name);
            if s.accepts_list(name) {
                assert forall|i: int, j: int|
                    0 <= i < n.len() && 0 <= j < n.len() && i != j implies #[trigger] n[i].name
                    != #[trigger] n[j].name by {
                    if i == s.lists.len() as int {
                        assert(s.lists[j].name == n[j].name);
                    } else if j == s.lists.len() as int {
                        assert(s.lists[i].name == n[i].name);
                    } else {
                        assert(s.lists[i] == n[i] && s.lists[j] == n[j]);
                    }
                }
                assert forall|i: int, k: int|
                    0 <= i < n.len() && 0 <= k < n[i].websites.len() implies clean_text(
                    #[trigger] n[i].websites[k],
                ) by {
                    assert(i < s.lists.len());
                    assert(n[i] == s.lists[i]);
                }
            }
        },
        StoreOp::DeleteList => {
            if let Some(x) = s.list_sel {
                if x < s.lists.len() {
                    assert forall|i: int| 0 <= i < n.len() implies clean_text(#[trigger] n[i].name) by {
                        if i < x {
                            assert(n[i] == s.lists[i]);
                        } else {
                            assert(n[i] == s.lists[i + 1]);
                        }
                    }
                    assert forall|i: int, j: int|
                        0 <= i < n.len() && 0 <= j < n.len() && i != j implies #[trigger] n[i].name
                        != #[trigger] n[j].name by {
                        let a = if i < x { i } else { i + 1 };
                        let b = if j < x { j } else { j + 1 };
                        assert(n[i] == s.lists[a] && n[j] == s.lists[b]);
                    }
                    assert forall|i: int, k: int|
                        0 <= i < n.len() && 0 <= k < n[i].websites.len() implies clean_text(
                        #[trigger] n[i].websites[k],
                    ) by {
                        let a = if i < x { i } else { i + 1 };
                        assert(n[i] == s.lists[a]);
                    }
                }
            }
        },
        StoreOp::AddWebsite(domain) => {
            lemma_trim_idempotent(domain);
            if s.accepts_website(domain) {
                let x = s.list_sel->0 as int;
                assert forall|i: int| 0 <= i < n.len() implies clean_text(#[trigger] n[i].name) by {
                    assert(n[i].name == s.lists[i].name);
                }
                assert forall|i: int, j: int|
                    0 <= i < n.len() && 0 <= j < n.len() && i != j implies #[trigger] n[i].name
                    != #[trigger] n[j].name by {
                    assert(n[i].name == s.lists[i].name && n[j].name == s.lists[j].name);
                }
                assert forall|i: int, k: int|
                    0 <= i < n.len() && 0 <= k < n[i].websites.len() implies clean_text(
                    #[trigger] n[i].websites[k],
                ) by {
                    if i != x {
                        assert(n[i] == s.lists[i]);
                    } else if k < s.lists[x].websites.len() {
                        assert(n[i].websites[k] == s.lists[x].websites[k]);
                    }
                }
            }
        },
        StoreOp::DeleteWebsite => {
            if let (Some(x), Some(y)) = (s.list_sel, s.site_sel) {
                if x < s.lists.len() && y < s.lists[x as int].websites.len() {
                    assert forall|i: int| 0 <= i < n.len() implies clean_text(#[trigger] n[i].name) by {
                        assert(n[i].name == s.lists[i].name);
                    }
                    assert forall|i: int, j: int|
                        0 <= i < n.len() && 0 <= j < n.len() && i != j implies #[trigger] n[i].name
                        != #[trigger] n[j].name by {
                        assert(n[i].name == s.lists[i].name && n[j].name == s.lists[j].name);
                    }
                    assert forall|i: int, k: int|
                        0 <= i < n.len() && 0 <= k < n[i].websites.len() implies clean_text(
                        #[trigger] n[i].websites[k],
                    ) by {
                        if i != x {
                            assert(n[i] == s.lists[i]);
                        } else if k < y {
                            assert(n[i].websites[k] == s.lists[i].websites[k]);
                        } else {
                            assert(n[i].websites[k] == s.lists[i].websites[k + 1]);
                        }
                    }
                }
            }
        },
    }
}

/// Whatever adds and deletes are made, clean lists stay clean.
pub proof fn lemma_clean_invariant(s: StoreModel, ops: Seq<StoreOp>)
    requires
        lists_clean(s.lists),
    ensures
        lists_clean(s.run(ops).lists),
    decreases ops.len(),
{
    if ops.len() > 0 {
        lemma_clean_invariant(s, ops.drop_last());
        lemma_step_keeps_clean(s.run(ops.drop_last()), ops.last());
    }
}

/// Every operation keeps the selections valid.
pub proof fn lemma_step_keeps_selection(s: StoreModel, op: StoreOp)
    requires
        s.selection_valid(),
    ensures
        s.step(op).selection_valid(),
{
}

/// Whatever adds and deletes are made, in whatever order, starting from valid
/// selections: a domain is selected only while a list is, and both exist.
pub proof fn lemma_selection_invariant(s: StoreModel, ops: Seq<StoreOp>)
    requires
        s.selection_valid(),
    ensures
        s.run(ops).selection_valid(),
        s.run(ops).site_sel is Some ==> s.run(ops).list_sel is Some,
    decreases ops.len(),
{
    if ops.len() > 0 {
        lemma_selection_invariant(s, ops.drop_last());
        lemma_step_keeps_selection(s.run(ops.drop_last()), ops.last());
    }
}

fn text_is_clean(s: &String) -> (r: bool)
    ensures
        r == clean_text(s@),
{
    let t = trim_str(s.as_str());
    !s.as_str().is_empty() && t == *s
}

/// Whether `lists` are clean: names non-empty, trimmed and distinct, domains
/// non-empty and trimmed.
pub fn lists_well_formed(lists: &Vec<WebsiteList>) -> (r: bool)
    ensures
        r == lists_clean(list_views(lists@)),
{
    let ghost v = list_views(lists@);
    let mut i: usize = 0;
    while i < lists.len()
        invariant
            v == list_views(lists@),
            i <= lists.len(),
            forall|a: int| 0 <= a < i ==> clean_text(#[trigger] v[a].name),
            forall|a: int, b: int|
                0 <= a < i && 0 <= b < i && a != b ==> #[trigger] v[a].name != #[trigger] v[b].name,
            forall|a: int, k: int|
                0 <= a < i && 0 <= k < v[a].websites.len() ==> clean_text(
                    #[trigger] v[a].websites[k],
                ),
        decreases lists.len() - i,
    {
        let l = &lists[i];
        assert(v[i as int] == l@);
        if !text_is_clean(&l.name) {
            assert(!clean_text(v[i as int].name));
            return false;
        }
        let mut j: usize = 0;
        while j < i
            invariant
                v == list_views(lists@),
                i < lists.len(),
                j <= i,
                l == &lists@[i as int],
                forall|b: int| 0 <= b < j ==> #[trigger] v[b].name != v[i as int].name,
            decreases i - j,
        {
            assert(v[j as int] == lists@[j as int]@);
            if lists[j].name == l.name {
                assert(v[j as int].name == v[i as int].name);
                assert(!lists_clean(v));
                return false;
            }
            j += 1;
        }
        let mut k: usize = 0;
        while k < l.websites.len()
            invariant
                v == list_views(lists@),
                i < lists.len(),
                l == &lists@[i as int],
                k <= l.websites@.len(),
                forall|c: int| 0 <= c < k ==> clean_text(#[trigger] v[i as int].websites[c]),
            decreases l.websites@.len() - k,
        {
            assert(v[i as int].websites[k as int] == l.websites@[k as int]@);
            if !text_is_clean(&l.websites[k]) {
                assert(!clean_text(v[i as int].websites[k as int]));
                assert(0 <= k < v[i as int].websites.len());
                assert(0 <= i < v.len());
                assert(!lists_clean(v));
                return false;
            }
            k += 1;
        }
        i += 1;
    }
    true
}

} // verus!
