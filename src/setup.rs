//! Setting up: where the hosts file lives, the website file format, the
//! starting lists, and the answer to the elevation prompt.

use vstd::prelude::*;
use crate::store::{list_views, ListView, WebsiteList};
use crate::text::{chars_of, string_of, trim, trim_chars, trim_str, views};

verus! {

/// The operating system the tool runs on.
#[derive(Debug, Clone, Copy, PartialEq, Eq, Structural)]
pub enum HostOs {
    Linux,
    MacOs,
    Windows,
    Other,
}

/// Path of the hosts file on `os`, which must be one with a known path.
pub fn get_hosts_path(os: HostOs) -> (r: String)
    requires
        os != HostOs::Other,
    ensures
        match os {
            HostOs::Windows => r@ == "C:\\Windows\\System32\\drivers\\etc\\hosts"@,
            _ => r@ == "/etc/hosts"@,
        },
{
    match os {
        HostOs::Windows => "C:\\Windows\\System32\\drivers\\etc\\hosts".to_owned(),
        _ => "/etc/hosts".to_owned(),
    }
}

/// The pieces of `s` between line breaks, the last one included even when
/// empty.
pub open spec fn lines_of(s: Seq<char>) -> Seq<Seq<char>>
    decreases s.len(),
{
    if s.len() == 0 {
        seq![Seq::empty()]
    } else {
        let p = lines_of(s.drop_last());
        if s.last() == '\n' {
            p.push(Seq::empty())
        } else {
            p.update(p.len() - 1, p.last().push(s.last()))
        }
    }
}

/// A trimmed line names a domain: it is neither empty nor a `#` comment.
pub open spec fn is_entry(t: Seq<char>) -> bool {
    t.len() > 0 && t[0] != '#'
}

/// The trimmed lines among `lines` that name domains, in order.
pub open spec fn entries_of(lines: Seq<Seq<char>>) -> Seq<Seq<char>>
    decreases lines.len(),
{
    if lines.len() == 0 {
        Seq::empty()
    } else {
        let p = entries_of(lines.drop_last());
        let t = trim(lines.last());
        if is_entry(t) {
            p.push(t)
        } else {
            p
        }
    }
}

fn push_entry(out: &mut Vec<String>, line: &Vec<char>)
    ensures
        views(final(out)@) == if is_entry(trim(line@)) {
            views(old(out)@).push(trim(line@))
        } else {
            views(old(out)@)
        },
{
    let t = trim_chars(line);
    if t.len() > 0 && t[0] != '#' {
        let s = string_of(&t);
        out.push(s);
        assert(views(out@) =~= views(old(out)@).push(trim(line@)));
    }
}

/// The domains of a website file: its lines trimmed, without empty lines
/// and `#` comments.
pub fn parse_website_file(text: &str) -> (r: Vec<String>)
    ensures
        views(r@) == entries_of(lines_of(text@)),
{
    let s = chars_of(text);
    let ghost v = s@;
    let mut out: Vec<String> = Vec::new();
    let mut line: Vec<char> = Vec::new();
    let mut i: usize = 0;
    proof {
        assert(v.take(0) =~= Seq::<char>::empty());
    }
    while i < s.len()
        invariant
            v == s@,
            i <= s.len(),
            lines_of(v.take(i as int)).len() > 0,
            line@ == lines_of(v.take(i as int)).last(),
            views(out@) == entries_of(lines_of(v.take(i as int)).drop_last()),
        decreases s.len() - i,
    {
        let ghost before = lines_of(v.take(i as int));
        assert(v.take(i + 1).drop_last() =~= v.take(i as int));
        assert(v.take(i + 1).last() == v[i as int]);
        if s[i] == '\n' {
            push_entry(&mut out, &line);
            line = Vec::new();
            let ghost after = lines_of(v.take(i + 1));
            assert(after == before.push(Seq::empty()));
            assert(after.drop_last() =~= before);
            assert(before.drop_last().push(before.last()) =~= before);
            assert(line@ =~= after.last());
        } else {
            line.push(s[i]);
            let ghost after = lines_of(v.take(i + 1));
            assert(after.drop_last() =~= before.drop_last());
        }
        i += 1;
    }
    push_entry(&mut out, &line);
    proof {
        let all = lines_of(v.take(i as int));
        assert(v.take(i as int) =~= v);
        assert(all.drop_last().push(all.last()) =~= all);
    }
    out
}

/// Every domain of `lists`, list after list.
pub open spec fn all_sites(lists: Seq<ListView>) -> Seq<Seq<char>>
    decreases lists.len(),
{
    if lists.len() == 0 {
        Seq::empty()
    } else {
        all_sites(lists.drop_last()) + lists.last().websites
    }
}

/// Every domain of `lists`, list after list.
pub fn all_websites(lists: &Vec<WebsiteList>) -> (r: Vec<String>)
    ensures
        views(r@) == all_sites(list_views(lists@)),
{
    let mut out: Vec<String> = Vec::new();
    let mut i: usize = 0;
    while i < lists.len()
        invariant
            i <= lists.len(),
            views(out@) == all_sites(list_views(lists@.take(i as int))),
        decreases lists.len() - i,
    {
        let ws = &lists[i].websites;
        let ghost before = out@;
        let mut k: usize = 0;
        while k < ws.len()
            invariant
                i < lists.len(),
                ws == &lists@[i as int].websites,
                k <= ws.len(),
                views(out@) == views(before) + views(ws@.take(k as int)),
            decreases ws.len() - k,
        {
            let c = ws[k].clone();
            assert(c@ == ws@[k as int]@);
            let ghost prev = out@;
            out.push(c);
            assert(views(out@) =~= views(prev).push(c@));
            assert(views(ws@.take(k + 1)) =~= views(ws@.take(k as int)).push(c@));
            assert(views(out@) =~= views(before) + views(ws@.take(k + 1)));
            k += 1;
        }
        assert(ws@.take(k as int) =~= ws@);
        assert(list_views(lists@.take(i + 1)).drop_last() =~= list_views(lists@.take(i as int)));
        i += 1;
    }
    assert(lists@.take(i as int) =~= lists@);
    out
}

/// What `str::to_lowercase` returns on `s`.
pub uninterp spec fn lower_of(s: Seq<char>) -> Seq<char>;

/// Relies on `str::to_lowercase`: the lowercase mapping of each character,
/// which depends on the characters alone.
#[verifier::external_body]
fn lowercase(s: &str) -> (r: String)
    ensures
        r@ == lower_of(s@),
{
    s.to_lowercase()
}

/// The already trimmed and lowercased answer `folded` says yes.
pub fn is_yes(folded: &str) -> (r: bool)
    ensures
        r == (folded@ == "y"@ || folded@ == "yes"@),
{
    let f = folded.to_owned();
    f == "y".to_owned() || f == "yes".to_owned()
}

/// The answer to the elevation prompt says yes: trimmed and lowercased, it
/// is `y` or `yes`.
pub fn is_affirmative(answer: &str) -> (r: bool)
    ensures
        r == (lower_of(trim(answer@)) == "y"@ || lower_of(trim(answer@)) == "yes"@),
{
    let t = trim_str(answer);
    let folded = lowercase(t.as_str());
    is_yes(folded.as_str())
}

fn list_of(name: &str, websites: Vec<String>) -> (r: WebsiteList)
    ensures
        r@ == (ListView { name: name@, websites: views(websites@) }),
{
    WebsiteList { name: name.to_owned(), websites }
}

/// The starting lists: social media and entertainment sites, then `custom`
/// as "Custom Sites".
pub fn setup_lists(custom: Vec<String>) -> (r: Vec<WebsiteList>)
    ensures
        list_views(r@) == seq![
            ListView {
                name: "Social Media"@,
                websites: seq![
                    "www.facebook.com"@,
                    "facebook.com"@,
                    "www.twitter.com"@,
                    "twitter.com"@,
                    "www.instagram.com"@,
                    "instagram.com"@,
                ],
            },
            ListView {
                name: "Entertainment"@,
                websites: seq![
                    "www.youtube.com"@,
                    "youtube.com"@,
                    "www.netflix.com"@,
                    "netflix.com"@,
                    "www.reddit.com"@,
                    "reddit.com"@,
                ],
            },
            ListView { name: "Custom Sites"@, websites: views(custom@) },
        ],
{
    let social = vec![
        "www.facebook.com".to_owned(),
        "facebook.com".to_owned(),
        "www.twitter.com".to_owned(),
        "twitter.com".to_owned(),
        "www.instagram.com".to_owned(),
        "instagram.com".to_owned(),
    ];
    let fun = vec![
        "www.youtube.com".to_owned(),
        "youtube.com".to_owned(),
        "www.netflix.com".to_owned(),
        "netflix.com".to_owned(),
        "www.reddit.com".to_owned(),
        "reddit.com".to_owned(),
    ];
    let r = vec![
        list_of("Social Media", social),
        list_of("Entertainment", fun),
        list_of("Custom Sites", custom),
    ];
    assert(list_views(r@) =~= seq![r@[0]@, r@[1]@, r@[2]@]);
    assert(views(r@[0].websites@) =~= seq![
        "www.facebook.com"@,
        "facebook.com"@,
        "www.twitter.com"@,
        "twitter.com"@,
        "www.instagram.com"@,
        "instagram.com"@,
    ]);
    assert(views(r@[1].websites@) =~= seq![
        "www.youtube.com"@,
        "youtube.com"@,
        "www.netflix.com"@,
        "netflix.com"@,
        "www.reddit.com"@,
        "reddit.com"@,
    ]);
    r
}

} // verus!
