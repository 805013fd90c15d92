//! Enumerating the WAD files of the mod directory.
//!
//! The caller lists the directory; this module decides whether a listing is
//! needed at all and which of the listed children enter the index.

use crate::config::{is_unset, value_is_unset};
use crate::host::HostKind;
use crate::text::{
    ascii_fold, ascii_lower, chars_of, final_component, final_component_of,
    final_component_start, has_wad_suffix, is_wad_name, lemma_final_component_start_bounds,
    same_text, to_ascii_lower,
};
use vstd::prelude::*;

verus! {

/// A direct child of a directory as the host reports it.
#[derive(Clone, Debug, PartialEq, Eq)]
pub struct DirChild {
    /// The child's path, if it is text.
    pub path: Option<String>,
    /// Whether the child is a regular file.
    pub is_file: bool,
}

/// [`DirChild`] as a mathematical value.
pub struct DirChildView {
    pub path: Option<Seq<char>>,
    pub is_file: bool,
}

impl View for DirChild {
    type V = DirChildView;

    open spec fn view(&self) -> DirChildView {
        DirChildView {
            path: match self.path {
                Some(path) => Some(path@),
                None => None,
            },
            is_file: self.is_file,
        }
    }
}

/// A mod that can be selected: the name to show and the path to hand to the engine.
#[derive(Clone, Debug, PartialEq, Eq)]
pub struct ModEntry {
    pub display_name: String,
    pub absolute_path: String,
}

/// [`ModEntry`] as a mathematical value.
pub struct ModEntryView {
    pub display_name: Seq<char>,
    pub absolute_path: Seq<char>,
}

impl View for ModEntry {
    type V = ModEntryView;

    open spec fn view(&self) -> ModEntryView {
        ModEntryView { display_name: self.display_name@, absolute_path: self.absolute_path@ }
    }
}

/// The views of the children `v`, in order.
pub open spec fn child_views(v: Seq<DirChild>) -> Seq<DirChildView> {
    Seq::new(v.len(), |i: int| v[i]@)
}

/// The views of the entries `v`, in order.
pub open spec fn entry_views(v: Seq<ModEntry>) -> Seq<ModEntryView> {
    Seq::new(v.len(), |i: int| v[i]@)
}

/// Whether two names are the same but for ASCII case.
pub open spec fn collides(a: Seq<char>, b: Seq<char>) -> bool {
    ascii_fold(a) == ascii_fold(b)
}

/// The file name of a child whose path is text: the final component of its
/// path, by the separators of `host`.
pub open spec fn name_of(child: DirChildView, host: HostKind) -> Seq<char> {
    final_component(child.path->0, host)
}

/// Whether a child enters the index: a regular file whose path is text and
/// whose file name ends in `.wad` (ASCII case-insensitive).
pub open spec fn qualifies(child: DirChildView, host: HostKind) -> bool {
    &&& child.is_file
    &&& child.path is Some
    &&& is_wad_name(name_of(child, host))
}

/// The index entry of a child that [`qualifies`]: its file name, and its path.
pub open spec fn entry_of(child: DirChildView, host: HostKind) -> ModEntryView {
    ModEntryView { display_name: name_of(child, host), absolute_path: child.path->0 }
}

/// The position of the first entry whose name collides with `name`, or
/// `entries.len()` if there is none.
pub open spec fn colliding_index(entries: Seq<ModEntryView>, name: Seq<char>) -> int
    decreases entries.len(),
{
    if entries.len() == 0 || collides(entries[0].display_name, name) {
        0
    } else {
        1 + colliding_index(entries.drop_first(), name)
    }
}

/// `entries` with `entry` put in: in the place of the entry whose name collides
/// with its name, or at the end if there is none.
pub open spec fn upsert(entries: Seq<ModEntryView>, entry: ModEntryView) -> Seq<ModEntryView> {
    let k = colliding_index(entries, entry.display_name);
    if 0 <= k < entries.len() {
        entries.update(k, entry)
    } else {
        entries.push(entry)
    }
}

/// The index of a listing: its qualifying children, put in one by one in the
/// order of the listing, so that of children whose names collide the last one
/// stays.
pub open spec fn collect(listing: Seq<DirChildView>, host: HostKind) -> Seq<ModEntryView>
    decreases listing.len(),
{
    if listing.len() == 0 {
        Seq::empty()
    } else if qualifies(listing.last(), host) {
        upsert(collect(listing.drop_last(), host), entry_of(listing.last(), host))
    } else {
        collect(listing.drop_last(), host)
    }
}

/// The index of the mod directory `folder`, whose listing is `listing`, or
/// `None` if it could not be listed. It is empty if the directory is unset or
/// could not be listed.
pub open spec fn scan_spec(
    folder: Seq<char>,
    listing: Option<Seq<DirChildView>>,
    host: HostKind,
) -> Seq<ModEntryView> {
    if is_unset(folder) {
        Seq::empty()
    } else {
        match listing {
            None => Seq::empty(),
            Some(children) => collect(children, host),
        }
    }
}

/// No two entries have names that collide, and every entry's name ends in
/// `.wad` and is the final component of its path by the separators of `host`.
pub open spec fn index_wf(entries: Seq<ModEntryView>, host: HostKind) -> bool {
    &&& forall|i: int, j: int|
        0 <= i < j < entries.len() ==> !collides(
            #[trigger] entries[i].display_name,
            #[trigger] entries[j].display_name,
        )
    &&& forall|i: int| 0 <= i < entries.len() ==> is_wad_name(#[trigger] entries[i].display_name)
    &&& forall|i: int|
        0 <= i < entries.len() ==> final_component((#[trigger] entries[i]).absolute_path, host)
            == entries[i].display_name
}

/// The mods found in the mod directory of a host.
#[derive(Debug, PartialEq, Eq)]
pub struct ModIndex {
    host: HostKind,
    entries: Vec<ModEntry>,
}

impl View for ModIndex {
    type V = Seq<ModEntryView>;

    closed spec fn view(&self) -> Seq<ModEntryView> {
        entry_views(self.entries@)
    }
}

impl ModIndex {
    /// Every index is well-formed.
    #[verifier::type_invariant]
    spec fn well_formed(self) -> bool {
        index_wf(entry_views(self.entries@), self.host)
    }

    /// The host whose directory was listed.
    pub closed spec fn host_kind(&self) -> HostKind {
        self.host
    }

    /// The host whose directory was listed, by whose separators each entry's
    /// name is the final component of its path.
    pub fn host(&self) -> (host: HostKind)
        ensures
            host == self.host_kind(),
    {
        self.host
    }

    /// The entries of the index. Where an entry took the place of one whose
    /// name collides with its name, it stands where that one stood; the others
    /// stand in the order in which they were listed.
    pub fn entries(&self) -> (entries: &Vec<ModEntry>)
        ensures
            entry_views(entries@) == self@,
            index_wf(self@, self.host_kind()),
    {
        proof {
            use_type_invariant(self);
        }
        &self.entries
    }

    /// The number of entries.
    pub fn len(&self) -> (n: usize)
        ensures
            n == self@.len(),
    {
        self.entries.len()
    }

    /// Whether the index has no entry.
    pub fn is_empty(&self) -> (empty: bool)
        ensures
            empty == (self@.len() == 0),
    {
        self.entries.len() == 0
    }

    /// The path of the entry whose display name is `name`, if there is one:
    /// what [`mapping`] gives for the name.
    pub fn path_of(&self, name: &str) -> (path: Option<String>)
        ensures
            match path {
                Some(found) => mapping(self@).contains_key(name@) && mapping(self@)[name@]
                    == found@,
                None => !mapping(self@).contains_key(name@),
            },
    {
        proof {
            use_type_invariant(self);
        }
        let mut i: usize = 0;
        while i < self.entries.len()
            invariant
                i <= self.entries.len(),
                index_wf(self@, self.host_kind()),
                forall|j: int| 0 <= j < i ==> (#[trigger] self@[j]).display_name != name@,
            decreases self.entries.len() - i,
        {
            if same_text(self.entries[i].display_name.as_str(), name) {
                proof {
                    lemma_mapping_of_entry(self@, i as int, self.host_kind());
                }
                return Some(self.entries[i].absolute_path.clone());
            }
            i += 1;
        }
        None
    }
}

/// Whether the mod directory has to be listed: it has not, if it is unset.
pub fn listing_needed(folder_path: &str) -> (needed: bool)
    ensures
        needed == !is_unset(folder_path@),
{
    !value_is_unset(folder_path)
}

/// Whether two names are the same but for ASCII case: [`collides`].
pub fn names_collide(a: &str, b: &str) -> (out: bool)
    ensures
        out == collides(a@, b@),
{
    let x = chars_of(a);
    let y = chars_of(b);
    if x.len() != y.len() {
        proof {
            assert(ascii_fold(a@).len() != ascii_fold(b@).len());
        }
        return false;
    }
    let mut i: usize = 0;
    while i < x.len()
        invariant
            i <= x.len(),
            x.len() == y.len(),
            x@ == a@,
            y@ == b@,
            forall|j: int| 0 <= j < i ==> ascii_lower(x@[j]) == ascii_lower(y@[j]),
        decreases x.len() - i,
    {
        if to_ascii_lower(x[i]) != to_ascii_lower(y[i]) {
            proof {
                assert(ascii_fold(a@)[i as int] != ascii_fold(b@)[i as int]);
            }
            return false;
        }
        i += 1;
    }
    proof {
        assert(ascii_fold(a@) =~= ascii_fold(b@));
    }
    true
}

/// Computes [`colliding_index`].
fn find_collision(entries: &Vec<ModEntry>, name: &str) -> (k: usize)
    ensures
        k == colliding_index(entry_views(entries@), name@),
        k <= entries.len(),
{
    let ghost all = entry_views(entries@);
    let mut j: usize = 0;
    proof {
        assert(all.skip(0) =~= all);
    }
    while j < entries.len()
        invariant
            j <= entries.len(),
            all == entry_views(entries@),
            colliding_index(all, name@) == j + colliding_index(all.skip(j as int), name@),
        decreases entries.len() - j,
    {
        proof {
            assert(all.skip(j as int)[0] == all[j as int]);
            assert(all.skip(j as int).drop_first() =~= all.skip(j + 1));
        }
        if names_collide(entries[j].display_name.as_str(), name) {
            return j;
        }
        j += 1;
    }
    j
}

/// Lists the WAD files of the mod directory `folder_path` on `host`.
///
/// `listing` holds the direct children of the directory, or `None` if the
/// directory could not be listed. The index is empty if the directory is unset
/// (whatever `listing` holds) or could not be listed. Otherwise it holds the
/// regular files whose names end in `.wad` (ASCII case-insensitive), each under
/// its file name with its path; of names that are the same but for ASCII case,
/// the one listed last stays. The file name of a child is the final component
/// of its path, by the separators of the host, so that every entry's display
/// name is the base name of its path.
pub fn get_wad_files_in_folder(
    folder_path: &str,
    listing: Option<Vec<DirChild>>,
    host: HostKind,
) -> (index: ModIndex)
    ensures
        index@ == scan_spec(
            folder_path@,
            match listing {
                Some(children) => Some(child_views(children@)),
                None => None,
            },
            host,
        ),
        is_unset(folder_path@) ==> index@.len() == 0,
        index.host_kind() == host,
        index_wf(index@, host),
{
    let mut entries: Vec<ModEntry> = Vec::new();
    proof {
        assert(entry_views(entries@) =~= Seq::<ModEntryView>::empty());
    }
    if value_is_unset(folder_path) {
        return ModIndex { host, entries };
    }
    let children = match listing {
        Some(children) => children,
        None => {
            return ModIndex { host, entries };
        },
    };
    let ghost all = child_views(children@);
    let mut i: usize = 0;
    proof {
        assert(all.take(0) =~= Seq::<DirChildView>::empty());
        lemma_collect_wf(all, host);
    }
    while i < children.len()
        invariant
            i <= children.len(),
            all == child_views(children@),
            entry_views(entries@) == collect(all.take(i as int), host),
        decreases children.len() - i,
    {
        let child = &children[i];
        proof {
            assert(all.take(i + 1).last() == child@);
            assert(all.take(i + 1).drop_last() =~= all.take(i as int));
        }
        if child.is_file {
            match &child.path {
                Some(path) => {
                    let name = final_component_of(path.as_str(), host);
                    if has_wad_suffix(name.as_str()) {
                        let ghost before = entry_views(entries@);
                        let k = find_collision(&entries, name.as_str());
                        let entry = ModEntry { display_name: name, absolute_path: path.clone() };
                        if k < entries.len() {
                            entries.set(k, entry);
                            proof {
                                assert(entry_views(entries@) =~= before.update(
                                    k as int,
                                    entry_of(child@, host),
                                ));
                            }
                        } else {
                            entries.push(entry);
                            proof {
                                assert(entry_views(entries@) =~= before.push(
                                    entry_of(child@, host),
                                ));
                            }
                        }
                    }
                },
                None => {},
            }
        }
        i += 1;
    }
    proof {
        assert(all.take(children.len() as int) =~= all);
    }
    ModIndex { host, entries }
}

/// Whether the index `entries` has an entry under `name`.
pub open spec fn index_has(entries: Seq<ModEntryView>, name: Seq<char>) -> bool {
    exists|k: int| 0 <= k < entries.len() && (#[trigger] entries[k]).display_name == name
}

/// No two qualifying children of `listing` have names that collide.
pub open spec fn collision_free(listing: Seq<DirChildView>, host: HostKind) -> bool {
    forall|i: int, j: int|
        0 <= i < j < listing.len() && qualifies(#[trigger] listing[i], host) && qualifies(
            #[trigger] listing[j],
            host,
        ) ==> !collides(name_of(listing[i], host), name_of(listing[j], host))
}

/// What [`colliding_index`] finds: the first entry whose name collides.
pub proof fn lemma_colliding_index(entries: Seq<ModEntryView>, name: Seq<char>)
    ensures
        0 <= colliding_index(entries, name) <= entries.len(),
        colliding_index(entries, name) < entries.len() ==> collides(
            entries[colliding_index(entries, name)].display_name,
            name,
        ),
        forall|j: int|
            0 <= j < colliding_index(entries, name) ==> !collides(
                (#[trigger] entries[j]).display_name,
                name,
            ),
    decreases entries.len(),
{
    if entries.len() == 0 || collides(entries[0].display_name, name) {
    } else {
        let rest = entries.drop_first();
        lemma_colliding_index(rest, name);
        assert forall|j: int| 0 <= j < colliding_index(entries, name) implies !collides(
            (#[trigger] entries[j]).display_name,
            name,
        ) by {
            if j > 0 {
                assert(rest[j - 1] == entries[j]);
            }
        }
    }
}

/// Putting an entry with a WAD name that is the final component of its path
/// into a well-formed index leaves it well-formed.
pub proof fn lemma_upsert_keeps_wf(
    entries: Seq<ModEntryView>,
    entry: ModEntryView,
    host: HostKind,
)
    requires
        index_wf(entries, host),
        is_wad_name(entry.display_name),
        final_component(entry.absolute_path, host) == entry.display_name,
    ensures
        index_wf(upsert(entries, entry), host),
{
    lemma_colliding_index(entries, entry.display_name);
    let k = colliding_index(entries, entry.display_name);
    let after = upsert(entries, entry);
    assert forall|i: int, j: int| 0 <= i < j < after.len() implies !collides(
        #[trigger] after[i].display_name,
        #[trigger] after[j].display_name,
    ) by {
        if k < entries.len() {
            if i == k {
                if collides(entry.display_name, entries[j].display_name) {
                    assert(collides(entries[k].display_name, entries[j].display_name));
                }
            } else if j == k {
                if collides(entries[i].display_name, entry.display_name) {
                    assert(collides(entries[i].display_name, entries[k].display_name));
                }
            }
        }
    }
}

/// The index of any listing is well-formed: no two of its names collide, and
/// each ends in `.wad`.
pub proof fn lemma_collect_wf(listing: Seq<DirChildView>, host: HostKind)
    ensures
        index_wf(collect(listing, host), host),
    decreases listing.len(),
{
    if listing.len() > 0 {
        lemma_collect_wf(listing.drop_last(), host);
        if qualifies(listing.last(), host) {
            lemma_upsert_keeps_wf(
                collect(listing.drop_last(), host),
                entry_of(listing.last(), host),
                host,
            );
        }
    }
}

/// Child `j` of `listing` qualifies, and no qualifying child behind it has a
/// name that collides with its name.
pub open spec fn stays(listing: Seq<DirChildView>, j: int, host: HostKind) -> bool {
    &&& 0 <= j < listing.len()
    &&& qualifies(listing[j], host)
    &&& forall|later: int|
        j < later < listing.len() && qualifies(#[trigger] listing[later], host) ==> !collides(
            name_of(listing[j], host),
            name_of(listing[later], host),
        )
}

/// Every entry of the index of a listing is the entry of a qualifying child of
/// the listing that no later qualifying child collides with.
pub proof fn lemma_collect_sound(listing: Seq<DirChildView>, k: int, host: HostKind)
    requires
        0 <= k < collect(listing, host).len(),
    ensures
        exists|j: int| #[trigger]
            stays(listing, j, host) && entry_of(listing[j], host) == collect(listing, host)[k],
    decreases listing.len(),
{
    if listing.len() > 0 {
        let rest = listing.drop_last();
        let last = listing.len() - 1;
        lemma_collect_wf(rest, host);
        if qualifies(listing.last(), host) {
            let entry = entry_of(listing.last(), host);
            lemma_colliding_index(collect(rest, host), entry.display_name);
            let k0 = colliding_index(collect(rest, host), entry.display_name);
            if k == k0 {
                assert(collect(listing, host)[k] == entry);
                assert(stays(listing, last, host));
            } else {
                assert(collect(rest, host)[k] == collect(listing, host)[k]);
                lemma_collect_sound(rest, k, host);
                let j = choose|j: int| #[trigger]
                    stays(rest, j, host) && entry_of(rest[j], host) == collect(rest, host)[k];
                assert(listing[j] == rest[j]);
                if k0 < collect(rest, host).len() {
                    if collides(collect(rest, host)[k].display_name, entry.display_name) {
                        assert(collides(
                            collect(rest, host)[k].display_name,
                            collect(rest, host)[k0].display_name,
                        ));
                        if k < k0 {
                            assert(!collides(
                                collect(rest, host)[k].display_name,
                                collect(rest, host)[k0].display_name,
                            ));
                        } else {
                            assert(!collides(
                                collect(rest, host)[k0].display_name,
                                collect(rest, host)[k].display_name,
                            ));
                        }
                    }
                }
                assert(!collides(name_of(listing[j], host), name_of(listing[last], host)));
                assert forall|later: int|
                    j < later < listing.len() && qualifies(
                        #[trigger] listing[later],
                        host,
                    ) implies !collides(
                    name_of(listing[j], host),
                    name_of(listing[later], host),
                ) by {
                    if later < last {
                        assert(rest[later] == listing[later]);
                    }
                }
                assert(stays(listing, j, host));
            }
        } else {
            lemma_collect_sound(rest, k, host);
            let j = choose|j: int| #[trigger]
                stays(rest, j, host) && entry_of(rest[j], host) == collect(rest, host)[k];
            assert(listing[j] == rest[j]);
            assert forall|later: int|
                j < later < listing.len()
                    && qualifies(#[trigger] listing[later], host) implies !collides(
                name_of(listing[j], host),
                name_of(listing[later], host),
            ) by {
                if later < last {
                    assert(rest[later] == listing[later]);
                }
            }
            assert(stays(listing, j, host));
        }
    }
}

/// A qualifying child that no later qualifying child collides with has its
/// entry in the index.
pub proof fn lemma_collect_complete(listing: Seq<DirChildView>, j: int, host: HostKind)
    requires
        stays(listing, j, host),
    ensures
        exists|k: int|
            0 <= k < collect(listing, host).len()
                && #[trigger] collect(listing, host)[k] == entry_of(
                listing[j],
                host,
            ),
    decreases listing.len(),
{
    let rest = listing.drop_last();
    let last = listing.len() - 1;
    if j == last {
        let entry = entry_of(listing.last(), host);
        lemma_colliding_index(collect(rest, host), entry.display_name);
        let k = colliding_index(collect(rest, host), entry.display_name);
        assert(collect(listing, host)[k] == entry);
    } else {
        assert(rest[j] == listing[j]);
        assert forall|later: int|
            j < later < rest.len() && qualifies(#[trigger] rest[later], host) implies !collides(
            name_of(rest[j], host),
            name_of(rest[later], host),
        ) by {
            assert(rest[later] == listing[later]);
        }
        assert(stays(rest, j, host));
        lemma_collect_complete(rest, j, host);
        let k = choose|k: int|
            0 <= k < collect(rest, host).len()
                && #[trigger] collect(rest, host)[k] == entry_of(listing[j], host);
        if qualifies(listing.last(), host) {
            let entry = entry_of(listing.last(), host);
            lemma_colliding_index(collect(rest, host), entry.display_name);
            assert(listing[last] == listing.last());
            assert(!collides(name_of(listing[j], host), entry.display_name));
            assert(collect(listing, host)[k] == collect(rest, host)[k]);
        } else {
            assert(collect(listing, host)[k] == collect(rest, host)[k]);
        }
    }
}

/// In a well-formed index every path ends in the display name of its entry,
/// and so in `.wad`.
pub proof fn law_paths_end_in_wad(entries: Seq<ModEntryView>, k: int, host: HostKind)
    requires
        index_wf(entries, host),
        0 <= k < entries.len(),
    ensures
        entries[k].display_name.is_suffix_of(entries[k].absolute_path),
        is_wad_name(entries[k].absolute_path),
{
    let name = entries[k].display_name;
    let path = entries[k].absolute_path;
    lemma_final_component_start_bounds(path, host);
    let start = final_component_start(path, host);
    assert(path.skip(start) == name);
    assert(name =~= path.subrange(path.len() - name.len(), path.len() as int));
    assert(name[name.len() - 4] == path[path.len() - 4]) by {
        assert(path.skip(start)[name.len() - 4] == path[path.len() - 4]);
    }
    assert(name[name.len() - 3] == path[path.len() - 3]) by {
        assert(path.skip(start)[name.len() - 3] == path[path.len() - 3]);
    }
    assert(name[name.len() - 2] == path[path.len() - 2]) by {
        assert(path.skip(start)[name.len() - 2] == path[path.len() - 2]);
    }
    assert(name[name.len() - 1] == path[path.len() - 1]) by {
        assert(path.skip(start)[name.len() - 1] == path[path.len() - 1]);
    }
}

/// Whether `entry` is one of `entries`.
pub open spec fn index_holds(entries: Seq<ModEntryView>, entry: ModEntryView) -> bool {
    exists|k: int| 0 <= k < entries.len() && #[trigger] entries[k] == entry
}

/// Whether `listing` has a qualifying child with the name and path of `entry`.
pub open spec fn listing_holds(
    listing: Seq<DirChildView>,
    entry: ModEntryView,
    host: HostKind,
) -> bool {
    exists|j: int|
        0 <= j < listing.len() && qualifies(#[trigger] listing[j], host)
            && entry_of(listing[j], host)
            == entry
}

/// The index as a mapping from display name to path.
pub open spec fn mapping(entries: Seq<ModEntryView>) -> Map<Seq<char>, Seq<char>> {
    Map::new(
        |name: Seq<char>| index_has(entries, name),
        |name: Seq<char>|
            entries[choose|k: int|
                0 <= k < entries.len() && (#[trigger] entries[k]).display_name
                    == name].absolute_path,
    )
}

/// Whether `listing` has a qualifying child with the name and path of `entry`
/// that no later qualifying child collides with.
pub open spec fn listing_keeps(
    listing: Seq<DirChildView>,
    entry: ModEntryView,
    host: HostKind,
) -> bool {
    exists|j: int| #[trigger] stays(listing, j, host) && entry_of(listing[j], host) == entry
}

/// Scan filter: the index holds an entry with a name and a path if and only if
/// the listing has a regular file of that name and path whose name ends in
/// `.wad` (ASCII case-insensitive) and no such file behind it has a name that
/// collides with its name. So where no two such names collide, the index holds
/// exactly the regular files whose names end in `.wad`.
pub proof fn law_scan_filter(listing: Seq<DirChildView>, entry: ModEntryView, host: HostKind)
    ensures
        index_holds(collect(listing, host), entry) <==> listing_keeps(listing, entry, host),
        collision_free(listing, host)
            ==> (index_holds(collect(listing, host), entry) <==> listing_holds(
            listing,
            entry,
            host,
        )),
{
    if index_holds(collect(listing, host), entry) {
        let k = choose|k: int|
            0 <= k < collect(listing, host).len() && #[trigger] collect(listing, host)[k] == entry;
        lemma_collect_sound(listing, k, host);
        let j = choose|j: int| #[trigger]
            stays(listing, j, host) && entry_of(listing[j], host) == collect(listing, host)[k];
        assert(qualifies(listing[j], host));
    }
    if listing_keeps(listing, entry, host) {
        let j = choose|j: int| #[trigger] stays(listing, j, host)
            && entry_of(listing[j], host) == entry;
        lemma_collect_complete(listing, j, host);
        assert(qualifies(listing[j], host));
    }
    if collision_free(listing, host) && listing_holds(listing, entry, host) {
        let j = choose|j: int|
            0 <= j < listing.len() && qualifies(#[trigger] listing[j], host)
                && entry_of(listing[j], host)
                == entry;
        assert(stays(listing, j, host));
    }
}

/// In a well-formed index, the mapping gives each entry's path under its name.
pub proof fn lemma_mapping_of_entry(entries: Seq<ModEntryView>, k: int, host: HostKind)
    requires
        index_wf(entries, host),
        0 <= k < entries.len(),
    ensures
        mapping(entries).contains_key(entries[k].display_name),
        mapping(entries)[entries[k].display_name] == entries[k].absolute_path,
{
    let name = entries[k].display_name;
    let chosen = choose|c: int|
        0 <= c < entries.len() && (#[trigger] entries[c]).display_name == name;
    assert(ascii_fold(name) == ascii_fold(entries[chosen].display_name));
    if chosen < k {
        assert(!collides(entries[chosen].display_name, entries[k].display_name));
    } else if k < chosen {
        assert(!collides(entries[k].display_name, entries[chosen].display_name));
    }
}

/// Scan idempotence: two listings of a directory that was not changed in
/// between give the same mapping from names to paths. The listings hold the
/// same children: in the same order, or, where no two qualifying children have
/// names that collide, in any order.
pub proof fn law_scan_idempotent(
    first: Seq<DirChildView>,
    second: Seq<DirChildView>,
    host: HostKind,
)
    requires
        first.to_multiset() == second.to_multiset(),
        first == second || (collision_free(first, host) && collision_free(second, host)),
    ensures
        mapping(collect(first, host)) == mapping(collect(second, host)),
{
    if first != second {
        lemma_same_children_same_mapping(first, second, host);
        lemma_same_children_same_mapping(second, first, host);
        assert(mapping(collect(first, host)) =~= mapping(collect(second, host)));
    }
}

/// Under the conditions of [`law_scan_idempotent`], what the first mapping
/// holds the second holds too.
proof fn lemma_same_children_same_mapping(
    first: Seq<DirChildView>,
    second: Seq<DirChildView>,
    host: HostKind,
)
    requires
        first.to_multiset() == second.to_multiset(),
        collision_free(first, host),
        collision_free(second, host),
    ensures
        forall|name: Seq<char>| #[trigger]
            mapping(collect(first, host)).contains_key(name)
                ==> mapping(collect(second, host)).contains_key(
                name,
            ) && mapping(collect(second, host))[name] == mapping(collect(first, host))[name],
{
    first.to_multiset_ensures();
    second.to_multiset_ensures();
    lemma_collect_wf(first, host);
    lemma_collect_wf(second, host);
    assert forall|name: Seq<char>| #[trigger]
        mapping(collect(first, host)).contains_key(name)
            implies mapping(collect(second, host)).contains_key(
        name,
    ) && mapping(collect(second, host))[name] == mapping(collect(first, host))[name] by {
        let k = choose|k: int|
            0 <= k < collect(first, host).len()
                && (#[trigger] collect(first, host)[k]).display_name == name;
        lemma_mapping_of_entry(collect(first, host), k, host);
        lemma_collect_sound(first, k, host);
        let j = choose|j: int| #[trigger]
            stays(first, j, host) && entry_of(first[j], host) == collect(first, host)[k];
        assert(first.contains(first[j]));
        assert(second.to_multiset().count(first[j]) > 0);
        assert(second.contains(first[j]));
        let j2 = choose|j2: int| 0 <= j2 < second.len() && second[j2] == first[j];
        assert(stays(second, j2, host));
        lemma_collect_complete(second, j2, host);
        let k2 = choose|k2: int|
            0 <= k2 < collect(second, host).len()
                && #[trigger] collect(second, host)[k2] == entry_of(
                second[j2],
                host,
            );
        lemma_mapping_of_entry(collect(second, host), k2, host);
    }
}

} // verus!
