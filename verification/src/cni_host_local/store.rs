//! The leases of a network, as files of a directory.
//!
//! The format is that of the host-local plugin of the CNI project: a file for
//! each leased address, named after it, with the container and its interface
//! on two lines; `last_reserved_ip.0` with the address that was handed out
//! last; and `lock`.

use std::collections::HashSet;

use vstd::prelude::*;
use vstd::std_specs::hash::*;
use vstd::string::*;

use crate::ipv4;
use crate::text;
use crate::text_map::TextMap;

verus! {

broadcast use group_hash_axioms;

/// The name of the file that holds the last address.
pub const LAST_RESERVED: &'static str = "last_reserved_ip.0";

/// The name of the file that is locked.
pub const LOCK: &'static str = "lock";

/// The files of a directory, by name.
pub type Files = Map<Seq<char>, Seq<char>>;

/// The contents of the files of a directory.
#[derive(Debug)]
pub struct Store {
    files: TextMap<String>,
}

/// A change of a file.
#[derive(Debug, PartialEq, Eq)]
pub enum Change {
    /// Write a file with that content.
    Write(String, String),
    /// Remove a file.
    Remove(String),
}

/// The model of `Change`.
pub enum ChangeView {
    Write(Seq<char>, Seq<char>),
    Remove(Seq<char>),
}

impl View for Change {
    type V = ChangeView;

    open spec fn view(&self) -> ChangeView {
        match self {
            Change::Write(n, c) => ChangeView::Write(n@, c@),
            Change::Remove(n) => ChangeView::Remove(n@),
        }
    }
}

/// The models of changes.
pub open spec fn change_views(v: Seq<Change>) -> Seq<ChangeView> {
    v.map_values(|c: Change| c@)
}

/// The files after a change.
pub open spec fn changed(files: Files, c: ChangeView) -> Files {
    match c {
        ChangeView::Write(n, content) => files.insert(n, content),
        ChangeView::Remove(n) => files.remove(n),
    }
}

/// The files after changes in order.
pub open spec fn all_changed(files: Files, changes: Seq<ChangeView>) -> Files
    decreases changes.len(),
{
    if changes.len() == 0 {
        files
    } else {
        changed(all_changed(files, changes.drop_last()), changes.last())
    }
}

/// The contents by name.
pub open spec fn contents(m: Map<Seq<char>, String>) -> Files {
    m.map_values(|s: String| s@)
}

impl View for Store {
    type V = Files;

    closed spec fn view(&self) -> Files {
        contents(self.files@)
    }
}

// ---------------------------------------------------------------------------
// Leases
// ---------------------------------------------------------------------------

/// The leased addresses: those that name a file.
pub open spec fn leased_in(files: Files) -> Set<u32> {
    Set::new(|ip: u32| files.contains_key(ipv4::dotted(ip)))
}

/// The address that was handed out last, where it is noted and readable.
pub open spec fn last_in(files: Files) -> Option<u32> {
    if files.contains_key(LAST_RESERVED@) {
        ipv4::address(text::trimmed(files[LAST_RESERVED@]))
    } else {
        None
    }
}

/// What the file of a lease holds.
pub open spec fn lease(container_id: Seq<char>, ifname: Seq<char>) -> Seq<char> {
    container_id + seq!['\n'] + ifname
}

/// The files after an address was handed out.
pub open spec fn reserved(
    files: Files,
    ip: u32,
    container_id: Seq<char>,
    ifname: Seq<char>,
) -> Files {
    files.insert(ipv4::dotted(ip), lease(container_id, ifname)).insert(
        LAST_RESERVED@,
        ipv4::dotted(ip),
    )
}

/// A line of a text, empty where there is none.
pub open spec fn line(content: Seq<char>, i: int) -> Seq<char> {
    if i < text::lines(content).len() {
        text::lines(content)[i]
    } else {
        Seq::empty()
    }
}

/// Whether a file is a lease of the container's interface.
pub open spec fn held_by(
    name: Seq<char>,
    content: Seq<char>,
    container_id: Seq<char>,
    ifname: Seq<char>,
) -> bool {
    ipv4::address(name) is Some && line(content, 0) == container_id && line(content, 1) == ifname
}

/// The files after the container's interface gave its leases back.
pub open spec fn released(files: Files, container_id: Seq<char>, ifname: Seq<char>) -> Files {
    Map::new(
        |n: Seq<char>|
            files.contains_key(n) && !held_by(n, files[n], container_id, ifname),
        |n: Seq<char>| files[n],
    )
}

/// Whether the container's interface has a lease.
pub open spec fn has_in(files: Files, container_id: Seq<char>, ifname: Seq<char>) -> bool {
    exists|n: Seq<char>| #[trigger]
        files.contains_key(n) && held_by(n, files[n], container_id, ifname)
}

fn line_in(lines: &Vec<String>, i: usize) -> (s: String)
    ensures
        i < lines@.len() ==> s@ == lines@[i as int]@,
        i >= lines@.len() ==> s@ == Seq::<char>::empty(),
{
    if i < lines.len() {
        lines[i].clone()
    } else {
        String::new()
    }
}

fn is_held_by(name: &str, content: &str, container_id: &str, ifname: &str) -> (r: bool)
    ensures
        r == held_by(name@, content@, container_id@, ifname@),
{
    if ipv4::parse_address(name).is_none() {
        return false;
    }
    let lines = text::lines_of(content);
    let ghost views = text::lines(content@);
    assert(lines@.len() == views.len());
    assert(forall|i: int| 0 <= i < views.len() ==> #[trigger] views[i] == lines@[i]@);
    let first = line_in(&lines, 0);
    let second = line_in(&lines, 1);
    text::same(first.as_str(), container_id) && text::same(second.as_str(), ifname)
}

impl Store {
    /// The store over files that were read.
    pub fn new(files: TextMap<String>) -> (s: Store)
        ensures
            s@ == contents(files@),
    {
        Store { files }
    }

    /// The leased addresses.
    pub fn leased(&self) -> (set: HashSet<u32>)
        ensures
            set@ == leased_in(self@),
    {
        let mut set: HashSet<u32> = HashSet::new();
        let n: usize = self.files.len();
        let ghost keys = self.files.keys();
        let mut i: usize = 0;
        while i < n
            invariant
                i <= n,
                n == keys.len(),
                keys == self.files.keys(),
                forall|ip: u32| #[trigger]
                    set@.contains(ip) <==> exists|j: int|
                        0 <= j < i && ipv4::address(#[trigger] keys[j]) == Some(ip),
            decreases n - i,
        {
            let name = self.files.key(i);
            if let Some(ip) = ipv4::parse_address(name) {
                set.insert(ip);
            }
            i = i + 1;
        }
        proof {
            assert forall|ip: u32| set@.contains(ip) <==> leased_in(self@).contains(ip) by {
                let d = ipv4::dotted(ip);
                if set@.contains(ip) {
                    let j = choose|j: int|
                        0 <= j < n && ipv4::address(#[trigger] keys[j]) == Some(ip);
                    ipv4::law_dotted_is_the_only_form(keys[j], ip);
                    assert(keys.contains(keys[j]));
                    assert(self.files@.contains_key(d));
                }
                if leased_in(self@).contains(ip) {
                    assert(self.files@.contains_key(d));
                    assert(keys.contains(d));
                    let j = keys.index_of(d);
                    ipv4::law_dotted_reads_back(ip);
                    assert(ipv4::address(keys[j]) == Some(ip));
                }
            }
            assert(set@ =~= leased_in(self@));
        }
        set
    }

    /// The address that was handed out last.
    pub fn last_reserved(&self) -> (r: Option<u32>)
        ensures
            r == last_in(self@),
    {
        match self.files.get(LAST_RESERVED) {
            Some(s) => ipv4::parse_address(text::trim(s.as_str()).as_str()),
            None => None,
        }
    }

    /// Hands out an address. Gives the files that are to be written.
    pub fn reserve(&mut self, ip: u32, container_id: &str, ifname: &str) -> (changes: Vec<Change>)
        ensures
            final(self)@ == reserved(old(self)@, ip, container_id@, ifname@),
            change_views(changes@) == seq![
                ChangeView::Write(ipv4::dotted(ip), lease(container_id@, ifname@)),
                ChangeView::Write(LAST_RESERVED@, ipv4::dotted(ip)),
            ],
    {
        let address = ipv4::address_text(ip);
        let mut content = container_id.to_owned();
        content.push('\n');
        content.append(ifname);
        assert(content@ =~= lease(container_id@, ifname@));
        self.files.insert(address.clone(), content.clone());
        self.files.insert(LAST_RESERVED.to_owned(), address.clone());
        assert(self@ =~= reserved(old(self)@, ip, container_id@, ifname@));
        let changes = vec![
            Change::Write(address.clone(), content),
            Change::Write(LAST_RESERVED.to_owned(), address),
        ];
        assert(change_views(changes@) =~= seq![
            ChangeView::Write(ipv4::dotted(ip), lease(container_id@, ifname@)),
            ChangeView::Write(LAST_RESERVED@, ipv4::dotted(ip)),
        ]);
        changes
    }

    /// Whether the container's interface has a lease.
    pub fn has(&self, container_id: &str, ifname: &str) -> (r: bool)
        ensures
            r == has_in(self@, container_id@, ifname@),
    {
        let n: usize = self.files.len();
        let ghost keys = self.files.keys();
        let mut i: usize = 0;
        while i < n
            invariant
                i <= n,
                n == keys.len(),
                keys == self.files.keys(),
                forall|j: int|
                    0 <= j < i ==> !held_by(
                        #[trigger] keys[j],
                        self@[keys[j]],
                        container_id@,
                        ifname@,
                    ),
            decreases n - i,
        {
            let name = self.files.key(i);
            let content = self.files.value(i);
            assert(self@.contains_key(keys[i as int]));
            assert(self@[keys[i as int]] == content@);
            if is_held_by(name, content.as_str(), container_id, ifname) {
                return true;
            }
            i = i + 1;
        }
        proof {
            assert forall|k: Seq<char>| #[trigger]
                self@.contains_key(k) implies !held_by(k, self@[k], container_id@, ifname@) by {
                assert(self.files@.contains_key(k));
                assert(keys.contains(k));
                assert(keys[keys.index_of(k)] == k);
            }
        }
        false
    }

    /// The names of the leases that the container's interface gives back.
    fn leases_of(&self, container_id: &str, ifname: &str) -> (names: Vec<String>)
        ensures
            forall|j: int|
                0 <= j < names@.len() ==> self@.contains_key((#[trigger] names@[j])@) && held_by(
                    names@[j]@,
                    self@[names@[j]@],
                    container_id@,
                    ifname@,
                ),
            forall|k: Seq<char>| #[trigger]
                self@.contains_key(k) && held_by(k, self@[k], container_id@, ifname@)
                    ==> text::texts(names@).contains(k),
            text::texts(names@).no_duplicates(),
    {
        let mut names: Vec<String> = Vec::new();
        let n: usize = self.files.len();
        let ghost keys = self.files.keys();
        let mut i: usize = 0;
        while i < n
            invariant
                i <= n,
                n == keys.len(),
                keys == self.files.keys(),
                keys.no_duplicates(),
                forall|j: int|
                    0 <= j < names@.len() ==> self@.contains_key((#[trigger] names@[j])@)
                        && held_by(names@[j]@, self@[names@[j]@], container_id@, ifname@),
                text::texts(names@).no_duplicates(),
                forall|k: Seq<char>| #[trigger]
                    text::texts(names@).contains(k) ==> keys.take(i as int).contains(k),
                forall|j: int|
                    0 <= j < i && held_by(
                        #[trigger] keys[j],
                        self@[keys[j]],
                        container_id@,
                        ifname@,
                    ) ==> text::texts(names@).contains(keys[j]),
            decreases n - i,
        {
            let ghost known = text::texts(names@);
            let name = self.files.key(i);
            let content = self.files.value(i);
            assert(self@.contains_key(keys[i as int]));
            assert(self@[keys[i as int]] == content@);
            if is_held_by(name, content.as_str(), container_id, ifname) {
                names.push(name.to_owned());
                proof {
                    let now = text::texts(names@);
                    assert(now =~= known.push(keys[i as int]));
                    if known.contains(keys[i as int]) {
                        let was = keys.take(i as int);
                        assert(was[was.index_of(keys[i as int])] == keys[i as int]);
                    }
                    assert(now[known.len() as int] == keys[i as int]);
                    assert forall|x: Seq<char>| known.contains(x) implies now.contains(x) by {
                        assert(now[known.index_of(x)] == x);
                    }
                }
            }
            proof {
                assert forall|k: Seq<char>| #[trigger]
                    text::texts(names@).contains(k) implies keys.take(i + 1).contains(k) by {
                    let now = keys.take(i + 1);
                    let was = keys.take(i as int);
                    if known.contains(k) {
                        assert(was.contains(k));
                        assert(now[was.index_of(k)] == k);
                    } else {
                        let kept = text::texts(names@);
                        assert(kept[kept.index_of(k)] == k);
                        assert(k == keys[i as int]);
                        assert(now[i as int] == k);
                    }
                }
            }
            i = i + 1;
        }
        proof {
            assert forall|k: Seq<char>| #[trigger]
                self@.contains_key(k) && held_by(
                    k,
                    self@[k],
                    container_id@,
                    ifname@,
                ) implies text::texts(names@).contains(k) by {
                assert(self.files@.contains_key(k));
                assert(keys.contains(k));
                assert(keys[keys.index_of(k)] == k);
            }
        }
        names
    }

    /// Gives back the leases of the container's interface. Gives the files
    /// that are to be removed.
    pub fn release(&mut self, container_id: &str, ifname: &str) -> (changes: Vec<Change>)
        ensures
            final(self)@ == released(old(self)@, container_id@, ifname@),
            all_changed(old(self)@, change_views(changes@)) == final(self)@,
            forall|i: int|
                0 <= i < changes@.len() ==> ((#[trigger] changes@[i])@ matches ChangeView::Remove(n)
                    && old(self)@.contains_key(n) && held_by(
                    n,
                    old(self)@[n],
                    container_id@,
                    ifname@,
                )),
            change_views(changes@).no_duplicates(),
    {
        let names = self.leases_of(container_id, ifname);
        let ghost all = text::texts(names@);
        let mut changes: Vec<Change> = Vec::new();
        let mut i: usize = 0;
        assert(change_views(changes@) =~= Seq::<ChangeView>::empty());
        while i < names.len()
            invariant
                i <= names@.len(),
                all == text::texts(names@),
                forall|j: int|
                    0 <= j < names@.len() ==> old(self)@.contains_key((#[trigger] names@[j])@)
                        && held_by(
                        names@[j]@,
                        old(self)@[names@[j]@],
                        container_id@,
                        ifname@,
                    ),
                forall|k: Seq<char>| #[trigger]
                    self@.contains_key(k) <==> old(self)@.contains_key(k) && !all.take(
                        i as int,
                    ).contains(k),
                forall|k: Seq<char>| #[trigger] self@.contains_key(k) ==> self@[k] == old(self)@[k],
                all_changed(old(self)@, change_views(changes@)) == self@,
                change_views(changes@) == all.take(i as int).map_values(
                    |n: Seq<char>| ChangeView::Remove(n),
                ),
                forall|j: int|
                    0 <= j < changes@.len() ==> ((
                    #[trigger] changes@[j])@ matches ChangeView::Remove(n) && old(
                        self,
                    )@.contains_key(n) && held_by(n, old(self)@[n], container_id@, ifname@)),
            decreases names@.len() - i,
        {
            let ghost before = self@;
            let ghost done = change_views(changes@);
            let ghost k = names@[i as int]@;
            self.files.remove(names[i].as_str());
            changes.push(Change::Remove(names[i].clone()));
            proof {
                assert(self@ =~= before.remove(k));
                assert(change_views(changes@) =~= done.push(ChangeView::Remove(k)));
                assert(change_views(changes@).drop_last() =~= done);
                assert(all[i as int] == k);
                assert(all.take(i + 1) =~= all.take(i as int).push(k));
                assert(change_views(changes@) =~= all.take(i + 1).map_values(
                    |n: Seq<char>| ChangeView::Remove(n),
                ));
                assert forall|x: Seq<char>| #[trigger]
                    self@.contains_key(x) <==> old(self)@.contains_key(x) && !all.take(
                        i + 1,
                    ).contains(x) by {
                    let now = all.take(i + 1);
                    let was = all.take(i as int);
                    if now.contains(x) {
                        let j = now.index_of(x);
                        if j < i {
                            assert(was[j] == x);
                        }
                    }
                    if was.contains(x) {
                        assert(now[was.index_of(x)] == x);
                    }
                    assert(now[i as int] == k);
                }
            }
            i = i + 1;
        }
        proof {
            assert(all.take(names@.len() as int) =~= all);
            let want = released(old(self)@, container_id@, ifname@);
            assert forall|k: Seq<char>| #[trigger]
                self@.contains_key(k) <==> want.contains_key(k) by {
                if all.contains(k) {
                    let j = all.index_of(k);
                    assert(names@[j]@ == k);
                }
            }
            assert(self@ =~= want);
            let removals = change_views(changes@);
            assert forall|a: int, b: int|
                0 <= a < removals.len() && 0 <= b < removals.len() && a != b implies removals[a]
                != removals[b] by {
                assert(removals[a] == ChangeView::Remove(all[a]));
                assert(removals[b] == ChangeView::Remove(all[b]));
            }
        }
        changes
    }
}

// ---------------------------------------------------------------------------
// Laws
// ---------------------------------------------------------------------------

/// Whether a text can stand on the first line of a lease: it has no line feed
/// and does not end with a carriage return.
pub open spec fn fits_first_line(s: Seq<char>) -> bool {
    !s.contains('\n') && !(s.len() > 0 && s.last() == '\r')
}

proof fn lemma_lease_lines(container_id: Seq<char>, ifname: Seq<char>)
    requires
        fits_first_line(container_id),
        !ifname.contains('\n'),
    ensures
        line(lease(container_id, ifname), 0) == container_id,
        line(lease(container_id, ifname), 1) == ifname,
{
    let s = lease(container_id, ifname);
    let at = container_id.len() as int;
    assert forall|i: int| 0 <= i < at implies s[i] != '\n' by {
        assert(container_id.contains(container_id[i]));
    }
    text::lemma_find_is(s, '\n', at);
    assert(s.take(at) =~= container_id);
    assert(s.skip(at + 1) =~= ifname);
    assert forall|i: int| 0 <= i < ifname.len() implies ifname[i] != '\n' by {
        assert(ifname.contains(ifname[i]));
    }
    text::lemma_find_is(ifname, '\n', ifname.len() as int);
    if ifname.len() == 0 {
        assert(text::lines(ifname) =~= Seq::<Seq<char>>::empty());
        assert(text::lines(s) =~= seq![container_id]);
    } else {
        assert(text::lines(ifname) =~= seq![ifname]);
        assert(text::lines(s) =~= seq![container_id, ifname]);
    }
}

proof fn lemma_last_is_no_address()
    ensures
        ipv4::address(LAST_RESERVED@) is None,
        forall|ip: u32| #[trigger] ipv4::dotted(ip) != LAST_RESERVED@,
{
    reveal_strlit("last_reserved_ip.0");
    assert(LAST_RESERVED@[0] == 'l');
    assert forall|ip: u32| #[trigger] ipv4::dotted(ip) != LAST_RESERVED@ by {
        ipv4::lemma_dotted_chars(ip);
    }
    if ipv4::address(LAST_RESERVED@) is Some {
        ipv4::law_dotted_is_the_only_form(
            LAST_RESERVED@,
            ipv4::address(LAST_RESERVED@)->0,
        );
    }
}

/// An address that was handed out is leased, is the last one, and is found for
/// its container's interface; every other lease stays as it was.
pub proof fn law_reserve_is_seen(
    files: Files,
    ip: u32,
    container_id: Seq<char>,
    ifname: Seq<char>,
)
    requires
        fits_first_line(container_id),
        !ifname.contains('\n'),
    ensures
        ({
            let after = reserved(files, ip, container_id, ifname);
            &&& leased_in(after) == leased_in(files).insert(ip)
            &&& last_in(after) == Some(ip)
            &&& has_in(after, container_id, ifname)
        }),
{
    let after = reserved(files, ip, container_id, ifname);
    let d = ipv4::dotted(ip);
    lemma_last_is_no_address();
    ipv4::law_dotted_reads_back(ip);
    assert forall|x: u32| leased_in(after).contains(x) <==> leased_in(files).insert(ip).contains(
        x,
    ) by {
        ipv4::law_dotted_reads_back(x);
        assert(ipv4::dotted(x) != LAST_RESERVED@);
    }
    assert(leased_in(after) =~= leased_in(files).insert(ip));
    ipv4::lemma_dotted_chars(ip);
    text::lemma_trimmed_same(d);
    lemma_lease_lines(container_id, ifname);
    assert(d != LAST_RESERVED@);
    assert(after.contains_key(d) && held_by(d, after[d], container_id, ifname));
}

/// Giving leases back concerns the container's interface alone: the leases of
/// others and the last address stay.
pub proof fn law_release_is_targeted(
    files: Files,
    container_id: Seq<char>,
    ifname: Seq<char>,
    name: Seq<char>,
)
    ensures
        last_in(released(files, container_id, ifname)) == last_in(files),
        files.contains_key(name) && !held_by(name, files[name], container_id, ifname)
            ==> released(files, container_id, ifname).contains_key(name) && released(
            files,
            container_id,
            ifname,
        )[name] == files[name],
        !has_in(released(files, container_id, ifname), container_id, ifname),
{
    lemma_last_is_no_address();
    let after = released(files, container_id, ifname);
    assert forall|n: Seq<char>| #[trigger] after.contains_key(n) implies !held_by(
        n,
        after[n],
        container_id,
        ifname,
    ) by {}
}

/// Giving leases back twice is the same as once.
pub proof fn law_release_is_idempotent(files: Files, container_id: Seq<char>, ifname: Seq<char>)
    ensures
        released(released(files, container_id, ifname), container_id, ifname) == released(
            files,
            container_id,
            ifname,
        ),
{
    let once = released(files, container_id, ifname);
    assert(released(once, container_id, ifname) =~= once);
}

/// What a container's interface was given it gives back: the address is free
/// again, and is still the last one.
pub proof fn law_release_frees_what_was_reserved(
    files: Files,
    ip: u32,
    container_id: Seq<char>,
    ifname: Seq<char>,
)
    requires
        fits_first_line(container_id),
        !ifname.contains('\n'),
    ensures
        ({
            let after = released(
                reserved(files, ip, container_id, ifname),
                container_id,
                ifname,
            );
            &&& !leased_in(after).contains(ip)
            &&& last_in(after) == Some(ip)
        }),
{
    let between = reserved(files, ip, container_id, ifname);
    law_reserve_is_seen(files, ip, container_id, ifname);
    law_release_is_targeted(between, container_id, ifname, Seq::empty());
    lemma_lease_lines(container_id, ifname);
    lemma_last_is_no_address();
    ipv4::law_dotted_reads_back(ip);
    assert(ipv4::dotted(ip) != LAST_RESERVED@);
    assert(held_by(ipv4::dotted(ip), between[ipv4::dotted(ip)], container_id, ifname));
}

/// Handing out a free address gives a lease to the container's interface and
/// changes for no other whether it has one.
pub proof fn law_reserve_concerns_one(
    files: Files,
    ip: u32,
    container_id: Seq<char>,
    ifname: Seq<char>,
    other_id: Seq<char>,
    other_ifname: Seq<char>,
)
    requires
        fits_first_line(container_id),
        !ifname.contains('\n'),
        !leased_in(files).contains(ip),
    ensures
        has_in(reserved(files, ip, container_id, ifname), other_id, other_ifname) == (has_in(
            files,
            other_id,
            other_ifname,
        ) || (container_id == other_id && ifname == other_ifname)),
{
    let after = reserved(files, ip, container_id, ifname);
    let d = ipv4::dotted(ip);
    law_reserve_is_seen(files, ip, container_id, ifname);
    lemma_lease_lines(container_id, ifname);
    lemma_last_is_no_address();
    assert(d != LAST_RESERVED@);
    if has_in(files, other_id, other_ifname) {
        let n = choose|n: Seq<char>| #[trigger]
            files.contains_key(n) && held_by(n, files[n], other_id, other_ifname);
        assert(after.contains_key(n) && held_by(n, after[n], other_id, other_ifname));
    }
    if has_in(after, other_id, other_ifname) {
        let n = choose|n: Seq<char>| #[trigger]
            after.contains_key(n) && held_by(n, after[n], other_id, other_ifname);
        if n != d {
            assert(files.contains_key(n) && held_by(n, files[n], other_id, other_ifname));
        }
    }
}

/// Giving leases back takes those of the container's interface and changes for
/// no other whether it has one.
pub proof fn law_release_concerns_one(
    files: Files,
    container_id: Seq<char>,
    ifname: Seq<char>,
    other_id: Seq<char>,
    other_ifname: Seq<char>,
)
    ensures
        has_in(released(files, container_id, ifname), other_id, other_ifname) == (has_in(
            files,
            other_id,
            other_ifname,
        ) && !(container_id == other_id && ifname == other_ifname)),
{
    let after = released(files, container_id, ifname);
    law_release_is_targeted(files, container_id, ifname, Seq::empty());
    if has_in(files, other_id, other_ifname) && !(container_id == other_id && ifname
        == other_ifname) {
        let n = choose|n: Seq<char>| #[trigger]
            files.contains_key(n) && held_by(n, files[n], other_id, other_ifname);
        assert(after.contains_key(n) && held_by(n, after[n], other_id, other_ifname));
    }
    if has_in(after, other_id, other_ifname) {
        let n = choose|n: Seq<char>| #[trigger]
            after.contains_key(n) && held_by(n, after[n], other_id, other_ifname);
        assert(files.contains_key(n) && held_by(n, files[n], other_id, other_ifname));
    }
}

/// A lease is a text of two lines: the container on the first, its interface on
/// the second. What is written at an address is that and nothing else.
pub proof fn law_lease_names_container_then_interface(
    files: Files,
    ip: u32,
    container_id: Seq<char>,
    ifname: Seq<char>,
)
    requires
        !container_id.contains('\n'),
        !ifname.contains('\n'),
    ensures
        text::split(lease(container_id, ifname), '\n') == seq![container_id, ifname],
        reserved(files, ip, container_id, ifname).contains_key(ipv4::dotted(ip)),
        text::split(reserved(files, ip, container_id, ifname)[ipv4::dotted(ip)], '\n') == seq![
            container_id,
            ifname,
        ],
{
    text::lemma_split_head(container_id, '\n', ifname);
    text::lemma_split_single(ifname, '\n');
    assert(seq![container_id] + seq![ifname] =~= seq![container_id, ifname]);
    ipv4::lemma_dotted_chars(ip);
    reveal_strlit("last_reserved_ip.0");
    assert(LAST_RESERVED@[0] == 'l' && ipv4::dotted(ip)[0] != 'l');
}

} // verus!
