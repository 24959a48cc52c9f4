//! The hosts-file patcher: a marker-delimited region of loopback redirects,
//! and a backup of the pristine file that restores it.

use vstd::prelude::*;
use crate::search::{contains, find_from, find_in, lemma_find_in, matches_at, occurs};
use crate::text::{append_chars, append_str, chars_of, is_blank, is_space, string_of, views};

verus! {

/// Opening line of the injected region.
pub const BEGIN_MARKER: &'static str = "# ===== TimeGuardian Temporary Hosts =====";

/// Closing line of the injected region.
pub const END_MARKER: &'static str = "# ===== End Temporary Hosts =====";

/// Start of each redirect line.
pub const LOOPBACK_PREFIX: &'static str = "127.0.0.1\t";

/// The line that redirects `domain` to the loopback address.
pub open spec fn redirect_line(domain: Seq<char>) -> Seq<char> {
    LOOPBACK_PREFIX@ + domain + seq!['\n']
}

/// `h` with the first marker region cut out: from the start of the opening
/// marker through the line break after the closing marker. Without an
/// opening marker followed by a closing one, `h` is left as it is.
pub open spec fn excise(h: Seq<char>) -> Seq<char> {
    match find_in(h, BEGIN_MARKER@, 0) {
        None => h,
        Some(s) => match find_in(h, END_MARKER@, s + BEGIN_MARKER@.len()) {
            None => h,
            Some(e) => {
                let end: int = e + END_MARKER@.len() as int;
                let hi: int = if end < h.len() && h[end] == '\n' {
                    end + 1
                } else {
                    end
                };
                h.subrange(0, s as int) + h.subrange(hi, h.len() as int)
            },
        },
    }
}

/// `domain` gets a redirect line appended to `acc`: it is not blank, and
/// does not already occur in `acc`.
pub open spec fn takes_redirect(acc: Seq<char>, domain: Seq<char>) -> bool {
    !is_blank(domain) && !occurs(acc, domain)
}

/// `start` followed by the redirect lines of `domains`, each added unless
/// `takes_redirect` refuses it against what has been written so far.
pub open spec fn with_redirects(start: Seq<char>, domains: Seq<Seq<char>>) -> Seq<char>
    decreases domains.len(),
{
    if domains.len() == 0 {
        start
    } else {
        let acc = with_redirects(start, domains.drop_last());
        if takes_redirect(acc, domains.last()) {
            acc + redirect_line(domains.last())
        } else {
            acc
        }
    }
}

/// The region head appended after `base`.
pub open spec fn region_head(base: Seq<char>) -> Seq<char> {
    base + seq!['\n'] + BEGIN_MARKER@ + seq!['\n']
}

/// The hosts content with the region for `domains` in place of any earlier one.
pub open spec fn patched(h: Seq<char>, domains: Seq<Seq<char>>) -> Seq<char> {
    with_redirects(region_head(excise(h)), domains) + END_MARKER@ + seq!['\n']
}

fn blank_chars(v: &Vec<char>) -> (r: bool)
    ensures
        r == is_blank(v@),
{
    let mut i: usize = 0;
    while i < v.len()
        invariant
            i <= v.len(),
            forall|j: int| 0 <= j < i ==> crate::text::white_space(#[trigger] v@[j]),
        decreases v.len() - i,
    {
        if !is_space(v[i]) {
            return false;
        }
        i += 1;
    }
    true
}

fn copy_range(h: &Vec<char>, lo: usize, hi: usize, out: &mut Vec<char>)
    requires
        lo <= hi <= h.len(),
    ensures
        final(out)@ == old(out)@ + h@.subrange(lo as int, hi as int),
{
    let mut i: usize = lo;
    while i < hi
        invariant
            lo <= i <= hi <= h.len(),
            out@ == old(out)@ + h@.subrange(lo as int, i as int),
        decreases hi - i,
    {
        out.push(h[i]);
        i += 1;
        assert(out@ =~= old(out)@ + h@.subrange(lo as int, i as int));
    }
}

/// `h` with its first marker region cut out (see `excise`).
pub fn excise_region(h: &Vec<char>) -> (r: Vec<char>)
    ensures
        r@ == excise(h@),
{
    let begin = chars_of(BEGIN_MARKER);
    let end_marker = chars_of(END_MARKER);
    let s = match find_from(h, &begin, 0) {
        None => {
            return h.clone();
        },
        Some(s) => s,
    };
    proof {
        lemma_find_in(h@, begin@, 0);
        assert(matches_at(h@, begin@, s as int));
    }
    let hl = h.len();
    let e = match find_from(h, &end_marker, s + begin.len()) {
        None => {
            return h.clone();
        },
        Some(e) => e,
    };
    proof {
        lemma_find_in(h@, end_marker@, (s + begin.len()) as nat);
        assert(matches_at(h@, end_marker@, e as int));
    }
    let end: usize = e + end_marker.len();
    let hi: usize = if end < hl && h[end] == '\n' {
        end + 1
    } else {
        end
    };
    let mut r: Vec<char> = Vec::new();
    copy_range(h, 0, s, &mut r);
    copy_range(h, hi, hl, &mut r);
    assert(r@ =~= excise(h@));
    r
}

/// The hosts content `content` with the region redirecting `domains` in
/// place of any earlier region.
pub fn patch_hosts(content: &str, domains: &Vec<String>) -> (r: String)
    ensures
        r@ == patched(content@, views(domains@)),
{
    let ghost ds = views(domains@);
    let mut acc = excise_region(&chars_of(content));
    acc.push('\n');
    append_str(&mut acc, BEGIN_MARKER);
    acc.push('\n');
    let ghost start = acc@;
    assert(start =~= region_head(excise(content@)));
    let mut i: usize = 0;
    while i < domains.len()
        invariant
            i <= domains.len(),
            ds == views(domains@),
            acc@ == with_redirects(start, ds.take(i as int)),
        decreases domains.len() - i,
    {
        let d = chars_of(domains[i].as_str());
        assert(ds.take(i + 1).drop_last() =~= ds.take(i as int));
        assert(ds.take(i + 1).last() == d@);
        if !blank_chars(&d) && !contains(&acc, &d) {
            append_str(&mut acc, LOOPBACK_PREFIX);
            append_chars(&mut acc, &d);
            acc.push('\n');
        }
        i += 1;
        assert(acc@ =~= with_redirects(start, ds.take(i as int)));
    }
    assert(ds.take(i as int) =~= ds);
    append_str(&mut acc, END_MARKER);
    acc.push('\n');
    string_of(&acc)
}

/// The hosts file and its backup, as one value.
pub struct HostFiles {
    /// Content of the hosts-resolution file.
    pub hosts: String,
    /// Content of the backup of the pristine file, if one was written.
    pub backup: Option<String>,
}

/// What a `HostFiles` holds, as character sequences.
pub struct FilesView {
    pub hosts: Seq<char>,
    pub backup: Option<Seq<char>>,
}

impl View for HostFiles {
    type V = FilesView;

    open spec fn view(&self) -> FilesView {
        FilesView {
            hosts: self.hosts@,
            backup: match self.backup {
                Some(b) => Some(b@),
                None => None,
            },
        }
    }
}

impl FilesView {
    /// No backup is held, or the one held is empty: a new one may be taken.
    pub open spec fn backup_missing(self) -> bool {
        match self.backup {
            None => true,
            Some(b) => b.len() == 0,
        }
    }

    /// After `ensure_backup`.
    pub open spec fn with_backup(self) -> FilesView {
        if self.backup_missing() {
            FilesView { hosts: self.hosts, backup: Some(self.hosts) }
        } else {
            self
        }
    }

    /// After `apply_block(domains)`.
    pub open spec fn blocked(self, domains: Seq<Seq<char>>) -> FilesView {
        FilesView { hosts: patched(self.hosts, domains), backup: self.backup }
    }

    /// After `remove_block`.
    pub open spec fn restored(self) -> FilesView {
        match self.backup {
            Some(b) => FilesView { hosts: b, backup: self.backup },
            None => self,
        }
    }
}

impl HostFiles {
    pub fn new(hosts: String, backup: Option<String>) -> (r: HostFiles)
        ensures
            r.hosts == hosts,
            r.backup == backup,
    {
        HostFiles { hosts, backup }
    }

    /// Takes a backup of the hosts file unless a non-empty one is already held.
    pub fn ensure_backup(&mut self)
        ensures
            final(self)@ == old(self)@.with_backup(),
    {
        let missing = match &self.backup {
            None => true,
            Some(b) => b.as_str().is_empty(),
        };
        if missing {
            self.backup = Some(self.hosts.clone());
        }
    }

    /// Replaces any earlier marker region of the hosts file by one that
    /// redirects `domains` to the loopback address.
    pub fn apply_block(&mut self, domains: &Vec<String>)
        ensures
            final(self)@ == old(self)@.blocked(views(domains@)),
    {
        self.hosts = patch_hosts(self.hosts.as_str(), domains);
    }

    /// Puts the backup back in place of the hosts file; without a backup,
    /// nothing changes.
    pub fn remove_block(&mut self)
        ensures
            final(self)@ == old(self)@.restored(),
    {
        match &self.backup {
            Some(b) => {
                self.hosts = b.clone();
            },
            None => {},
        }
    }
}

/// Taking the backup, blocking and restoring gives back the hosts file as it
/// was, whatever the domains, when no backup was held before.
pub proof fn lemma_round_trip(f: FilesView, domains: Seq<Seq<char>>)
    requires
        f.backup_missing(),
    ensures
        f.with_backup().blocked(domains).restored().hosts == f.hosts,
{
}

/// `n` has no line break.
pub open spec fn single_line(n: Seq<char>) -> bool {
    forall|k: int| 0 <= k < n.len() ==> n[k] != '\n'
}

/// `n` is a line of one of the region's two kinds: it starts with `#`,
/// holds no other `#`, and no line break.
pub open spec fn marker_like(n: Seq<char>) -> bool {
    &&& n.len() >= 2
    &&& n[0] == '#'
    &&& single_line(n)
    &&& forall|k: int| 0 < k < n.len() ==> n[k] != '#'
}

/// Text the region does not clash with: neither marker occurs in it.
pub open spec fn marker_free(s: Seq<char>) -> bool {
    !occurs(s, BEGIN_MARKER@) && !occurs(s, END_MARKER@)
}

proof fn lemma_marker_text()
    ensures
        marker_like(BEGIN_MARKER@),
        marker_like(END_MARKER@),
        BEGIN_MARKER@.len() == 42,
        END_MARKER@.len() == 33,
        BEGIN_MARKER@[8] != END_MARKER@[8],
        single_line(LOOPBACK_PREFIX@),
        forall|k: int| 0 <= k < LOOPBACK_PREFIX@.len() ==> LOOPBACK_PREFIX@[k] != '#',
{
    reveal_strlit("# ===== TimeGuardian Temporary Hosts =====");
    reveal_strlit("# ===== End Temporary Hosts =====");
    reveal_strlit("127.0.0.1\t");
}

/// A single-line needle found in `x + y`, where `x` ends a line, lies within
/// `x` or within `y`.
proof fn lemma_split_at_break(x: Seq<char>, y: Seq<char>, n: Seq<char>, j: int)
    requires
        x.len() > 0,
        x.last() == '\n',
        single_line(n),
        matches_at(x + y, n, j),
    ensures
        (j + n.len() <= x.len() && matches_at(x, n, j)) || (j >= x.len() && matches_at(
            y,
            n,
            j - x.len(),
        )),
{
    let xy = x + y;
    if j < x.len() {
        if j + n.len() > x.len() - 1 {
            assert(xy.subrange(j, j + n.len())[x.len() - 1 - j] == xy[x.len() - 1]);
            assert(false);
        }
        assert(xy.subrange(j, j + n.len()) =~= x.subrange(j, j + n.len()));
    } else {
        assert(xy.subrange(j, j + n.len()) =~= y.subrange(j - x.len(), j - x.len() + n.len()));
    }
}

/// A redirect line holds no marker-like needle unless its domain does.
proof fn lemma_line_clear(d: Seq<char>, n: Seq<char>, j: int)
    requires
        marker_like(n),
        !occurs(d, n),
    ensures
        !matches_at(redirect_line(d), n, j),
{
    lemma_marker_text();
    let l = redirect_line(d);
    let p = LOOPBACK_PREFIX@;
    if matches_at(l, n, j) {
        let m = l.subrange(j, j + n.len());
        if j + n.len() == l.len() {
            assert(m[n.len() - 1] == l[l.len() - 1]);
            assert(false);
        }
        if j < p.len() {
            assert(m[0] == l[j]);
            assert(l[j] == p[j]);
            assert(false);
        }
        assert(m =~= d.subrange(j - p.len(), j - p.len() + n.len()));
        assert(matches_at(d, n, j - p.len()));
    }
}

/// `start` is kept at the front, and the content still ends a line.
proof fn lemma_redirects_prefix(start: Seq<char>, domains: Seq<Seq<char>>)
    requires
        start.len() > 0,
        start.last() == '\n',
    ensures
        with_redirects(start, domains).len() >= start.len(),
        with_redirects(start, domains).subrange(0, start.len() as int) == start,
        with_redirects(start, domains).last() == '\n',
    decreases domains.len(),
{
    if domains.len() > 0 {
        lemma_redirects_prefix(start, domains.drop_last());
        let acc = with_redirects(start, domains.drop_last());
        let w = with_redirects(start, domains);
        if takes_redirect(acc, domains.last()) {
            assert(w.subrange(0, start.len() as int) =~= acc.subrange(0, start.len() as int));
        }
    }
}

/// Matches of a marker-like needle in the redirect lines lie in `start`.
proof fn lemma_redirects_clear(start: Seq<char>, domains: Seq<Seq<char>>, n: Seq<char>, j: int)
    requires
        start.len() > 0,
        start.last() == '\n',
        marker_like(n),
        forall|i: int| 0 <= i < domains.len() ==> !occurs(#[trigger] domains[i], n),
        matches_at(with_redirects(start, domains), n, j),
    ensures
        matches_at(start, n, j),
    decreases domains.len(),
{
    if domains.len() > 0 {
        let rest = domains.drop_last();
        assert forall|i: int| 0 <= i < rest.len() implies !occurs(#[trigger] rest[i], n) by {
            assert(rest[i] == domains[i]);
        }
        lemma_redirects_prefix(start, rest);
        let acc = with_redirects(start, rest);
        if takes_redirect(acc, domains.last()) {
            lemma_split_at_break(acc, redirect_line(domains.last()), n, j);
            if j >= acc.len() {
                lemma_line_clear(domains.last(), n, j - acc.len());
            }
        }
        lemma_redirects_clear(start, rest, n, j);
    }
}

/// The region written after `b`.
pub open spec fn region(b: Seq<char>, domains: Seq<Seq<char>>) -> Seq<char> {
    with_redirects(region_head(b), domains) + END_MARKER@ + seq!['\n']
}

/// In a region written after marker-free text, a marker-like needle that
/// occurs in no domain matches only where the opening or the closing
/// marker starts.
proof fn lemma_region_matches(b: Seq<char>, domains: Seq<Seq<char>>, n: Seq<char>, j: int)
    requires
        !occurs(b, n),
        marker_like(n),
        forall|i: int| 0 <= i < domains.len() ==> !occurs(#[trigger] domains[i], n),
        matches_at(region(b, domains), n, j),
    ensures
        j == b.len() + 1 || j == with_redirects(region_head(b), domains).len(),
{
    lemma_marker_text();
    let head = region_head(b);
    let w = with_redirects(head, domains);
    let tail = END_MARKER@ + seq!['\n'];
    lemma_redirects_prefix(head, domains);
    assert(region(b, domains) =~= w + tail);
    lemma_split_at_break(w, tail, n, j);
    if j >= w.len() {
        let k = j - w.len();
        assert(tail.subrange(k, k + n.len())[0] == tail[k]);
        if k > 0 {
            assert(tail[k] == END_MARKER@[k]);
        }
    } else {
        lemma_redirects_clear(head, domains, n, j);
        let x = b + seq!['\n'];
        let y = BEGIN_MARKER@ + seq!['\n'];
        assert(head =~= x + y);
        lemma_split_at_break(x, y, n, j);
        if j < x.len() {
            if j + n.len() == x.len() {
                assert(x.subrange(j, j + n.len())[n.len() - 1] == x[x.len() - 1]);
            }
            assert(x.subrange(j, j + n.len()) =~= b.subrange(j, j + n.len()));
            assert(matches_at(b, n, j));
        } else {
            let k = j - x.len();
            assert(y.subrange(k, k + n.len())[0] == y[k]);
            if k > 0 {
                assert(y[k] == BEGIN_MARKER@[k]);
            }
        }
    }
}

/// Every domain is free of both markers.
pub open spec fn all_marker_free(domains: Seq<Seq<char>>) -> bool {
    forall|i: int| 0 <= i < domains.len() ==> marker_free(#[trigger] domains[i])
}

proof fn lemma_region_shape(b: Seq<char>, domains: Seq<Seq<char>>)
    ensures
        ({
            let r = region(b, domains);
            let w = with_redirects(region_head(b), domains);
            &&& w.len() >= b.len() as int + 44
            &&& r.len() == w.len() as int + 34
            &&& r.subrange(0, b.len() as int) == b
            &&& r[b.len() as int] == '\n'
            &&& r[w.len() as int + 33] == '\n'
            &&& r.subrange(b.len() as int + 1, b.len() as int + 43) == BEGIN_MARKER@
            &&& r.subrange(w.len() as int, w.len() as int + 33) == END_MARKER@
        }),
{
    lemma_marker_text();
    let head = region_head(b);
    let r = region(b, domains);
    let w = with_redirects(head, domains);
    lemma_redirects_prefix(head, domains);
    assert(r.subrange(0, head.len() as int) =~= w.subrange(0, head.len() as int));
    assert(r[b.len() as int] == head[b.len() as int]);
    assert(r.subrange(0, b.len() as int) =~= head.subrange(0, b.len() as int));
    assert(head.subrange(0, b.len() as int) =~= b);
    assert(r.subrange(b.len() as int + 1, b.len() as int + 43) =~= head.subrange(b.len() as int + 1, b.len() as int + 43));
    assert(head.subrange(b.len() as int + 1, b.len() as int + 43) =~= BEGIN_MARKER@);
    assert(r.subrange(w.len() as int, w.len() as int + 33) =~= END_MARKER@);
}

/// Each marker occurs in a region written after marker-free text exactly once.
proof fn lemma_region_markers(b: Seq<char>, domains: Seq<Seq<char>>)
    requires
        marker_free(b),
        all_marker_free(domains),
    ensures
        forall|j: int|
            matches_at(region(b, domains), BEGIN_MARKER@, j) <==> j == b.len() as int + 1,
        forall|j: int|
            matches_at(region(b, domains), END_MARKER@, j) <==> j == with_redirects(
                region_head(b),
                domains,
            ).len(),
{
    lemma_marker_text();
    lemma_region_shape(b, domains);
    let r = region(b, domains);
    let w = with_redirects(region_head(b), domains);
    assert forall|i: int| 0 <= i < domains.len() implies !occurs(
        #[trigger] domains[i],
        BEGIN_MARKER@,
    ) by {
        assert(marker_free(domains[i]));
    }
    assert forall|i: int| 0 <= i < domains.len() implies !occurs(
        #[trigger] domains[i],
        END_MARKER@,
    ) by {
        assert(marker_free(domains[i]));
    }
    assert forall|j: int| matches_at(r, BEGIN_MARKER@, j) implies j == b.len() as int + 1 by {
        lemma_region_matches(b, domains, BEGIN_MARKER@, j);
    }
    assert forall|j: int| matches_at(r, END_MARKER@, j) implies j == w.len() by {
        lemma_region_matches(b, domains, END_MARKER@, j);
        if j == b.len() as int + 1 {
            assert(r.subrange(j, j + 33)[8] == r.subrange(b.len() as int + 1, b.len() as int + 43)[8]);
        }
    }
}

/// Cutting the region out of what was written after marker-free text gives
/// that text back, with the line break that preceded the opening marker.
proof fn lemma_excise_region(b: Seq<char>, domains: Seq<Seq<char>>)
    requires
        marker_free(b),
        all_marker_free(domains),
    ensures
        excise(region(b, domains)) == b + seq!['\n'],
{
    lemma_marker_text();
    lemma_region_shape(b, domains);
    lemma_region_markers(b, domains);
    let r = region(b, domains);
    let w = with_redirects(region_head(b), domains);
    lemma_find_in(r, BEGIN_MARKER@, 0);
    assert(matches_at(r, BEGIN_MARKER@, b.len() as int + 1));
    assert(find_in(r, BEGIN_MARKER@, 0) == Some((b.len() + 1) as nat));
    let from = (b.len() as int + 43) as nat;
    lemma_find_in(r, END_MARKER@, from);
    assert(matches_at(r, END_MARKER@, w.len() as int));
    assert(find_in(r, END_MARKER@, from) == Some(w.len() as nat));
    assert(r.subrange(0, b.len() as int + 1) =~= b + seq!['\n']);
    assert(excise(r) =~= b + seq!['\n']);
}

/// Marker-free text has nothing to cut out.
proof fn lemma_excise_clean(h: Seq<char>)
    requires
        marker_free(h),
    ensures
        excise(h) == h,
{
    crate::search::lemma_occurs_find(h, BEGIN_MARKER@);
}

/// A line break added to marker-free text keeps it marker-free.
proof fn lemma_marker_free_break(b: Seq<char>)
    requires
        marker_free(b),
    ensures
        marker_free(b + seq!['\n']),
{
    lemma_marker_text();
    let x = b + seq!['\n'];
    assert forall|n: Seq<char>, j: int|
        single_line(n) && n.len() > 0 && !occurs(b, n) implies !matches_at(x, n, j) by {
        if matches_at(x, n, j) {
            if j + n.len() == x.len() {
                assert(x.subrange(j, j + n.len())[n.len() - 1] == x[x.len() - 1]);
            }
            assert(x.subrange(j, j + n.len()) =~= b.subrange(j, j + n.len()));
            assert(matches_at(b, n, j));
        }
    }
    assert(!occurs(x, BEGIN_MARKER@));
    assert(!occurs(x, END_MARKER@));
}

/// The redirect lines for the domains `rs`, in order.
pub open spec fn redirect_block(rs: Seq<Seq<char>>) -> Seq<char>
    decreases rs.len(),
{
    if rs.len() == 0 {
        Seq::empty()
    } else {
        redirect_block(rs.drop_last()) + redirect_line(rs.last())
    }
}

/// `with_redirects` appends the lines of the domains it takes to `start`.
pub proof fn lemma_redirects_shape(start: Seq<char>, domains: Seq<Seq<char>>)
    ensures
        with_redirects(start, domains) == start + redirect_block(redirected(start, domains)),
    decreases domains.len(),
{
    if domains.len() > 0 {
        let rest = domains.drop_last();
        lemma_redirects_shape(start, rest);
        let p = redirected(start, rest);
        if takes_redirect(with_redirects(start, rest), domains.last()) {
            let q = p.push(domains.last());
            assert(q.drop_last() =~= p);
            assert(with_redirects(start, domains) =~= start + redirect_block(q));
        }
    }
}

proof fn lemma_match_in_part(x: Seq<char>, y: Seq<char>, n: Seq<char>, j: int)
    ensures
        matches_at(x, n, j) ==> matches_at(x + y, n, j),
        matches_at(y, n, j) ==> matches_at(x + y, n, x.len() + j),
{
    if matches_at(x, n, j) {
        assert((x + y).subrange(j, j + n.len()) =~= x.subrange(j, j + n.len()));
    }
    if matches_at(y, n, j) {
        assert((x + y).subrange(x.len() + j, x.len() + j + n.len()) =~= y.subrange(j, j + n.len()));
    }
}

/// An empty line more after a line break changes no occurrence of a
/// non-empty single-line needle.
proof fn lemma_occurs_extra_break(x: Seq<char>, z: Seq<char>, n: Seq<char>)
    requires
        x.len() > 0,
        x.last() == '\n',
        single_line(n),
        n.len() > 0,
    ensures
        occurs(x + (seq!['\n'] + z), n) <==> occurs(x + z, n),
{
    let nl = seq!['\n'];
    if occurs(x + (nl + z), n) {
        let j = choose|j: int| matches_at(x + (nl + z), n, j);
        lemma_split_at_break(x, nl + z, n, j);
        if j + n.len() <= x.len() && matches_at(x, n, j) {
            lemma_match_in_part(x, z, n, j);
        } else {
            lemma_split_at_break(nl, z, n, j - x.len());
            if j - x.len() + n.len() <= 1 {
                assert(nl.subrange(j - x.len(), j - x.len() + n.len())[0] == nl[j - x.len()]);
            } else {
                lemma_match_in_part(x, z, n, j - x.len() - 1);
            }
        }
    }
    if occurs(x + z, n) {
        let j = choose|j: int| matches_at(x + z, n, j);
        lemma_split_at_break(x, z, n, j);
        if j + n.len() <= x.len() && matches_at(x, n, j) {
            lemma_match_in_part(x, nl + z, n, j);
        } else {
            lemma_match_in_part(nl, z, n, j - x.len());
            lemma_match_in_part(x, nl + z, n, 1 + j - x.len());
        }
    }
}

/// Every domain is a single line.
pub open spec fn all_single_line(domains: Seq<Seq<char>>) -> bool {
    forall|i: int| 0 <= i < domains.len() ==> single_line(#[trigger] domains[i])
}

/// An empty line more before the opening marker takes the same domains.
proof fn lemma_same_redirected(x: Seq<char>, t: Seq<char>, domains: Seq<Seq<char>>)
    requires
        x.len() > 0,
        x.last() == '\n',
        all_single_line(domains),
    ensures
        redirected(x + seq!['\n'] + t, domains) == redirected(x + t, domains),
    decreases domains.len(),
{
    if domains.len() > 0 {
        let rest = domains.drop_last();
        assert forall|i: int| 0 <= i < rest.len() implies single_line(#[trigger] rest[i]) by {
            assert(rest[i] == domains[i]);
        }
        lemma_same_redirected(x, t, rest);
        let blk = redirect_block(redirected(x + t, rest));
        lemma_redirects_shape(x + t, rest);
        lemma_redirects_shape(x + seq!['\n'] + t, rest);
        let d = domains.last();
        assert(single_line(domains[domains.len() - 1]));
        assert(x + t + blk =~= x + (t + blk));
        assert(x + seq!['\n'] + t + blk =~= x + (seq!['\n'] + (t + blk)));
        if !is_blank(d) {
            assert(d.len() > 0);
            lemma_occurs_extra_break(x, t + blk, d);
        }
    }
}

/// Blocking twice with the same domains gives the same redirect lines as
/// blocking once, now after one more line break, and exactly one opening
/// marker, before exactly one closing marker.
pub proof fn lemma_block_idempotent(h: Seq<char>, domains: Seq<Seq<char>>)
    requires
        marker_free(excise(h)),
        all_marker_free(domains),
        all_single_line(domains),
    ensures
        ({
            let b = excise(h);
            let lines = redirect_block(redirected(region_head(b), domains));
            let twice = patched(patched(h, domains), domains);
            &&& patched(h, domains) == region_head(b) + lines + END_MARKER@ + seq!['\n']
            &&& twice == region_head(b + seq!['\n']) + lines + END_MARKER@ + seq!['\n']
            &&& forall|j: int, k: int|
                matches_at(twice, BEGIN_MARKER@, j) && matches_at(twice, BEGIN_MARKER@, k) ==> j
                    == k
            &&& forall|j: int, k: int|
                matches_at(twice, END_MARKER@, j) && matches_at(twice, END_MARKER@, k) ==> j == k
            &&& forall|j: int, k: int|
                matches_at(twice, BEGIN_MARKER@, j) && matches_at(twice, END_MARKER@, k) ==> j < k
            &&& occurs(twice, BEGIN_MARKER@)
            &&& occurs(twice, END_MARKER@)
        }),
{
    let b = excise(h);
    let b2 = b + seq!['\n'];
    assert(patched(h, domains) =~= region(b, domains));
    lemma_excise_region(b, domains);
    assert(patched(patched(h, domains), domains) =~= region(b2, domains));
    lemma_marker_free_break(b);
    lemma_region_markers(b2, domains);
    lemma_region_shape(b2, domains);
    let t = BEGIN_MARKER@ + seq!['\n'];
    assert(region_head(b) =~= b2 + t);
    assert(region_head(b2) =~= b2 + seq!['\n'] + t);
    lemma_same_redirected(b2, t, domains);
    lemma_redirects_shape(region_head(b), domains);
    lemma_redirects_shape(region_head(b2), domains);
    let twice = region(b2, domains);
    assert(matches_at(twice, BEGIN_MARKER@, b2.len() as int + 1));
    assert(matches_at(twice, END_MARKER@, with_redirects(region_head(b2), domains).len() as int));
}

/// The hosts content after blocking with each domain sequence of `rounds`
/// in turn.
pub open spec fn patched_all(h: Seq<char>, rounds: Seq<Seq<Seq<char>>>) -> Seq<char>
    decreases rounds.len(),
{
    if rounds.len() == 0 {
        h
    } else {
        patched(patched_all(h, rounds.drop_last()), rounds.last())
    }
}

/// Starting from a hosts file that is marker-free once its region (if any)
/// is cut out, one or more blocking rounds leave exactly one opening marker,
/// before exactly one closing marker.
pub proof fn lemma_markers_exclusive(h: Seq<char>, rounds: Seq<Seq<Seq<char>>>)
    requires
        marker_free(excise(h)),
        rounds.len() > 0,
        forall|i: int| 0 <= i < rounds.len() ==> all_marker_free(#[trigger] rounds[i]),
    ensures
        ({
            let r = patched_all(h, rounds);
            &&& forall|j: int, k: int|
                matches_at(r, BEGIN_MARKER@, j) && matches_at(r, BEGIN_MARKER@, k) ==> j == k
            &&& forall|j: int, k: int|
                matches_at(r, END_MARKER@, j) && matches_at(r, END_MARKER@, k) ==> j == k
            &&& forall|j: int, k: int|
                matches_at(r, BEGIN_MARKER@, j) && matches_at(r, END_MARKER@, k) ==> j < k
            &&& occurs(r, BEGIN_MARKER@)
            &&& occurs(r, END_MARKER@)
        }),
{
    let b = lemma_rounds_region(h, rounds);
    lemma_region_markers(b, rounds.last());
    lemma_region_shape(b, rounds.last());
    let r = region(b, rounds.last());
    assert(matches_at(r, BEGIN_MARKER@, b.len() as int + 1));
    assert(matches_at(r, END_MARKER@, with_redirects(region_head(b), rounds.last()).len() as int));
}

proof fn lemma_rounds_region(h: Seq<char>, rounds: Seq<Seq<Seq<char>>>) -> (b: Seq<char>)
    requires
        marker_free(excise(h)),
        rounds.len() > 0,
        forall|i: int| 0 <= i < rounds.len() ==> all_marker_free(#[trigger] rounds[i]),
    ensures
        marker_free(b),
        patched_all(h, rounds) == region(b, rounds.last()),
        all_marker_free(rounds.last()),
    decreases rounds.len(),
{
    assert(all_marker_free(rounds[rounds.len() - 1]));
    let rest = rounds.drop_last();
    let before = patched_all(h, rest);
    assert(patched_all(h, rounds) == patched(before, rounds.last()));
    let b = if rest.len() == 0 {
        assert(before == h);
        excise(h)
    } else {
        assert forall|i: int| 0 <= i < rest.len() implies all_marker_free(#[trigger] rest[i]) by {
            assert(rest[i] == rounds[i]);
        }
        let b0 = lemma_rounds_region(h, rest);
        lemma_excise_region(b0, rest.last());
        lemma_marker_free_break(b0);
        b0 + seq!['\n']
    };
    assert(excise(before) == b);
    assert(patched_all(h, rounds) =~= region(b, rounds.last()));
    b
}

/// The domains that `with_redirects(start, domains)` writes a line for, in
/// order.
pub open spec fn redirected(start: Seq<char>, domains: Seq<Seq<char>>) -> Seq<Seq<char>>
    decreases domains.len(),
{
    if domains.len() == 0 {
        Seq::empty()
    } else {
        let p = redirected(start, domains.drop_last());
        if takes_redirect(with_redirects(start, domains.drop_last()), domains.last()) {
            p.push(domains.last())
        } else {
            p
        }
    }
}

proof fn lemma_occurs_extend(a: Seq<char>, b: Seq<char>, n: Seq<char>)
    requires
        occurs(a, n),
    ensures
        occurs(a + b, n),
{
    let i = choose|i: int| matches_at(a, n, i);
    assert((a + b).subrange(i, i + n.len()) =~= a.subrange(i, i + n.len()));
    assert(matches_at(a + b, n, i));
}

/// The redirect lines name each domain at most once, never a blank one, and
/// only members of `domains`; each domain named occurs in the result.
pub proof fn lemma_redirects_distinct(start: Seq<char>, domains: Seq<Seq<char>>)
    ensures
        ({
            let r = redirected(start, domains);
            &&& forall|i: int| 0 <= i < r.len() ==> !is_blank(#[trigger] r[i])
            &&& forall|i: int| 0 <= i < r.len() ==> domains.contains(#[trigger] r[i])
            &&& forall|i: int, j: int| 0 <= i < j < r.len() ==> r[i] != r[j]
            &&& forall|i: int| 0 <= i < r.len() ==> occurs(with_redirects(start, domains), #[trigger] r[i])
        }),
    decreases domains.len(),
{
    if domains.len() > 0 {
        let rest = domains.drop_last();
        lemma_redirects_distinct(start, rest);
        let p = redirected(start, rest);
        let acc = with_redirects(start, rest);
        let d = domains.last();
        assert forall|i: int| 0 <= i < p.len() implies domains.contains(#[trigger] p[i]) by {
            let k = choose|k: int| 0 <= k < rest.len() && rest[k] == p[i];
            assert(domains[k] == p[i]);
        }
        if takes_redirect(acc, d) {
            let line = redirect_line(d);
            assert forall|i: int| 0 <= i < p.len() implies occurs(
                acc + line,
                #[trigger] p[i],
            ) by {
                lemma_occurs_extend(acc, line, p[i]);
            }
            let at: int = acc.len() + LOOPBACK_PREFIX@.len() as int;
            assert((acc + line).subrange(at, at + d.len()) =~= d);
            assert(matches_at(acc + line, d, at));
            assert(domains[domains.len() - 1] == d);
            let r = p.push(d);
            assert forall|i: int| 0 <= i < r.len() - 1 implies r[i] != d by {
                assert(r[i] == p[i]);
            }
        }
    }
}

proof fn lemma_occurs_before_break(x: Seq<char>, n: Seq<char>, j: int)
    requires
        single_line(n),
        n.len() > 0,
        matches_at(x + seq!['\n'], n, j),
    ensures
        matches_at(x, n, j),
{
    let y = x + seq!['\n'];
    if j + n.len() == y.len() {
        assert(y.subrange(j, j + n.len())[n.len() - 1] == y[y.len() - 1]);
    }
    assert(y.subrange(j, j + n.len()) =~= x.subrange(j, j + n.len()));
}

/// Blocking one domain on a marker-free hosts file that does not mention it
/// appends exactly its redirect line inside one region, and restoring from the
/// backup taken beforehand gives the file back.
pub proof fn lemma_block_one_domain(f: FilesView, d: Seq<char>)
    requires
        marker_free(f.hosts),
        f.backup_missing(),
        !is_blank(d),
        single_line(d),
        !occurs(f.hosts, d),
        !occurs(BEGIN_MARKER@, d),
    ensures
        f.with_backup().blocked(seq![d]).hosts == f.hosts + seq!['\n'] + BEGIN_MARKER@ + seq![
            '\n',
        ] + LOOPBACK_PREFIX@ + d + seq!['\n'] + END_MARKER@ + seq!['\n'],
        f.with_backup().blocked(seq![d]).restored().hosts == f.hosts,
{
    let h = f.hosts;
    lemma_excise_clean(h);
    let x = h + seq!['\n'];
    let y = BEGIN_MARKER@ + seq!['\n'];
    let head = region_head(h);
    assert(head =~= x + y);
    assert(d.len() > 0);
    if occurs(head, d) {
        let j = choose|j: int| matches_at(head, d, j);
        lemma_split_at_break(x, y, d, j);
        if j + d.len() <= x.len() && matches_at(x, d, j) {
            lemma_occurs_before_break(h, d, j);
        } else {
            lemma_occurs_before_break(BEGIN_MARKER@, d, j - x.len());
        }
    }
    assert(!occurs(head, d));
    let ds = seq![d];
    assert(ds.drop_last() =~= Seq::<Seq<char>>::empty());
    assert(with_redirects(head, ds.drop_last()) == head);
    assert(ds.last() == d);
    assert(takes_redirect(head, d));
    assert(with_redirects(head, ds) == head + redirect_line(d));
    assert(patched(h, ds) =~= h + seq!['\n'] + BEGIN_MARKER@ + seq!['\n'] + LOOPBACK_PREFIX@ + d
        + seq!['\n'] + END_MARKER@ + seq!['\n']);
}

} // verus!
