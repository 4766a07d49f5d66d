//! The patch-chain core of the version-discovery collaborator: given the
//! version graph a repository query returns, builds the ordered,
//! oldest-first patch list by walking prerequisite links down from the
//! latest version. The network call that fetches the graph lives outside
//! the library; this module is the pure computation on its result.

use vstd::prelude::*;
use vstd::string::StringExecFns;
use vstd::string::StringSliceAdditionalSpecFns;

use crate::error::Error;

verus! {

/// One patch file of the chain.
#[derive(Debug)]
pub struct Patch {
    pub name: String,
    pub url: String,
    pub size: u64,
}

/// Mathematical image of a patch.
pub struct PatchView {
    pub name: Seq<char>,
    pub url: Seq<char>,
    pub size: u64,
}

impl View for Patch {
    type V = PatchView;

    open spec fn view(&self) -> PatchView {
        PatchView { name: self.name@, url: self.url@, size: self.size }
    }
}

impl DeepView for Patch {
    type V = PatchView;

    open spec fn deep_view(&self) -> PatchView {
        self.view()
    }
}

/// Configuration of the version-discovery collaborator: the endpoint its
/// repository queries are posted to.
#[derive(Debug)]
pub struct Config {
    pub endpoint: String,
}

/// One patch file of one version, as the repository query returns it.
#[derive(Debug)]
pub struct PatchData {
    pub url: String,
    pub size: u64,
}

/// One version of the repository's graph: its name, whether it is still
/// active, its patch files, and the versions it builds on.
#[derive(Debug)]
pub struct VersionEntry {
    pub version_string: String,
    pub is_active: bool,
    pub patches: Vec<PatchData>,
    pub prerequisite_versions: Vec<String>,
}

/// Whether some entry has the given version name.
pub open spec fn has_entry(entries: Seq<VersionEntry>, name: Seq<char>) -> bool {
    exists|j: int| 0 <= j < entries.len() && (#[trigger] entries[j]).version_string@ == name
}

/// Whether a patch carries the data of some entry: its name, and the url
/// and size of that entry's first patch file.
pub open spec fn patch_from_entries(entries: Seq<VersionEntry>, p: PatchView) -> bool {
    exists|j: int|
        0 <= j < entries.len() && (#[trigger] entries[j]).version_string@ == p.name
            && entries[j].patches@.len() >= 1 && entries[j].patches@[0].url@ == p.url
            && entries[j].patches@[0].size == p.size
}

/// Whether consecutive patches are linked: the older one's version is a
/// prerequisite of the newer one's.
pub open spec fn patches_linked(entries: Seq<VersionEntry>, older: PatchView, newer: PatchView) -> bool {
    exists|j: int|
        0 <= j < entries.len() && (#[trigger] entries[j]).version_string@ == newer.name && exists|
            p: int,
        |
            0 <= p < entries[j].prerequisite_versions@.len()
                && (#[trigger] entries[j].prerequisite_versions@[p])@ == older.name
}

/// Whether a version name is already recorded in a patch list.
pub open spec fn name_taken(taken: Seq<Patch>, name: Seq<char>) -> bool {
    exists|k: int| 0 <= k < taken.len() && (#[trigger] taken[k]).name@ == name
}

/// Whether some active entry carries the given version name.
pub open spec fn has_active_entry(entries: Seq<VersionEntry>, name: Seq<char>) -> bool {
    exists|j: int|
        0 <= j < entries.len() && (#[trigger] entries[j]).version_string@ == name
            && entries[j].is_active
}

/// Whether prerequisite `q` of `entry` is a live candidate for the walk:
/// not yet recorded, and carried by some active entry.
pub open spec fn walk_candidate(
    entries: Seq<VersionEntry>,
    taken: Seq<Patch>,
    entry: VersionEntry,
    q: int,
) -> bool {
    &&& 0 <= q < entry.prerequisite_versions@.len()
    &&& !name_taken(taken, entry.prerequisite_versions@[q]@)
    &&& has_active_entry(entries, entry.prerequisite_versions@[q]@)
}

/// The walk's choice from `newer`: `older_name` is one of the live
/// candidate prerequisites of an entry named like `newer`, and no live
/// candidate of that entry has a greater version name.
pub open spec fn newest_choice(
    entries: Seq<VersionEntry>,
    taken: Seq<Patch>,
    newer: PatchView,
    older_name: Seq<char>,
) -> bool {
    exists|j: int|
        0 <= j < entries.len() && (#[trigger] entries[j]).version_string@ == newer.name && (exists|
            q: int,
        |
            walk_candidate(entries, taken, #[trigger] entries[j], q)
                && entries[j].prerequisite_versions@[q]@ == older_name) && (forall|q: int|
            walk_candidate(entries, taken, entries[j], q) ==> crate::rank::chars_le(
                (#[trigger] entries[j].prerequisite_versions@[q])@,
                older_name,
            ))
}

/// A choice fact carries over to a recorded list with the same names.
pub proof fn lemma_choice_same_names(
    entries: Seq<VersionEntry>,
    t1: Seq<Patch>,
    t2: Seq<Patch>,
    newer: PatchView,
    older_name: Seq<char>,
)
    requires
        forall|x: Seq<char>| name_taken(t1, x) == name_taken(t2, x),
        newest_choice(entries, t1, newer, older_name),
    ensures
        newest_choice(entries, t2, newer, older_name),
{
    let j = choose|j: int|
        0 <= j < entries.len() && (#[trigger] entries[j]).version_string@ == newer.name && (exists|
            q: int,
        |
            walk_candidate(entries, t1, #[trigger] entries[j], q)
                && entries[j].prerequisite_versions@[q]@ == older_name) && (forall|q: int|
            walk_candidate(entries, t1, entries[j], q) ==> crate::rank::chars_le(
                (#[trigger] entries[j].prerequisite_versions@[q])@,
                older_name,
            ));
    assert(forall|q: int|
        walk_candidate(entries, t2, entries[j], q) == walk_candidate(entries, t1, entries[j], q));
}

/// Finds the first active entry with the given version name.
fn find_active_entry<'a>(entries: &'a Vec<VersionEntry>, name: &String) -> (r: Option<
    &'a VersionEntry,
>)
    ensures
        match r {
            Some(entry) => exists|j: int|
                0 <= j < entries@.len() && (#[trigger] entries@[j]).version_string@ == name@
                    && entries@[j].is_active && *entry == entries@[j],
            None => !has_active_entry(entries@, name@),
        },
{
    let mut i: usize = 0;
    while i < entries.len()
        invariant
            0 <= i <= entries@.len(),
            forall|k: int|
                0 <= k < i ==> !((#[trigger] entries@[k]).version_string@ == name@
                    && entries@[k].is_active),
        decreases entries@.len() - i,
    {
        if entries[i].is_active && entries[i].version_string == *name {
            return Some(&entries[i]);
        }
        i += 1;
    }
    None
}

/// Finds the entry with the given version name.
fn find_entry<'a>(entries: &'a Vec<VersionEntry>, name: &String) -> (r: Option<&'a VersionEntry>)
    ensures
        match r {
            Some(entry) => exists|j: int|
                0 <= j < entries@.len() && (#[trigger] entries@[j]).version_string@ == name@
                    && *entry == entries@[j],
            None => !has_entry(entries@, name@),
        },
{
    let mut i: usize = 0;
    while i < entries.len()
        invariant
            0 <= i <= entries@.len(),
            forall|k: int| 0 <= k < i ==> (#[trigger] entries@[k]).version_string@ != name@,
        decreases entries@.len() - i,
    {
        if entries[i].version_string == *name {
            return Some(&entries[i]);
        }
        i += 1;
    }
    None
}

/// Whether a patch with the given name was already recorded.
fn patch_taken(patches: &Vec<Patch>, name: &String) -> (r: bool)
    ensures
        r == exists|k: int|
            0 <= k < patches@.len() && (#[trigger] patches@[k]).name@ == name@,
{
    let mut i: usize = 0;
    while i < patches.len()
        invariant
            0 <= i <= patches@.len(),
            forall|k: int| 0 <= k < i ==> (#[trigger] patches@[k]).name@ != name@,
        decreases patches@.len() - i,
    {
        if patches[i].name == *name {
            return true;
        }
        i += 1;
    }
    false
}

/// Lexicographic comparison of version names by character: version names
/// sort as strings, so the greater name is the newer version.
fn name_le(a: &String, b: &String) -> (r: bool)
    ensures
        r == crate::rank::chars_le(a@, b@),
{
    crate::rank::str_le(a.as_str(), b.as_str())
}

/// Builds the oldest-first patch chain from a repository's version graph,
/// starting at `latest` and following, at each step, the newest (greatest
/// version name) active, not yet visited prerequisite. On success the
/// chain is non-empty, ends at `latest`, carries distinct version names,
/// each patch holds its entry's first patch file, consecutive patches are
/// linked by a prerequisite edge, and each step's choice is maximal among
/// the live candidates (`newest_choice`). Fails when `latest` is unknown
/// (always, per the last clause), when a visited version has no patch
/// file — the error names that version — or if the walk somehow outlives
/// the version count (impossible for a graph reached through the
/// visited-filter).
pub fn build_patch_list(entries: &Vec<VersionEntry>, latest: &String) -> (r: Result<
    Vec<Patch>,
    Error,
>)
    ensures
        match r {
            Ok(patches) => {
                &&& patches@.len() >= 1
                &&& patches@[patches@.len() - 1].name@ == latest@
                &&& has_entry(entries@, latest@)
                &&& forall|k: int, l: int|
                    0 <= k < l < patches@.len() ==> (#[trigger] patches@[k]).name@ != (
                    #[trigger] patches@[l]).name@
                &&& forall|k: int|
                    0 <= k < patches@.len() ==> patch_from_entries(
                        entries@,
                        (#[trigger] patches@[k])@,
                    )
                &&& forall|k: int|
                    0 <= k < patches@.len() - 1 ==> patches_linked(
                        entries@,
                        (#[trigger] patches@[k])@,
                        patches@[k + 1]@,
                    )
                &&& forall|k: int|
                    0 <= k < patches@.len() - 1 ==> newest_choice(
                        entries@,
                        patches@.skip(k + 1),
                        patches@[k + 1]@,
                        (#[trigger] patches@[k]).name@,
                    )
            },
            Err(e) => e.spec_is_fatal(),
        },
        !has_entry(entries@, latest@) ==> r is Err,
{
    let mut patches: Vec<Patch> = Vec::new();
    let mut current: Option<&VersionEntry> = find_entry(entries, latest);
    if current.is_none() {
        return Err(Error::Failure(String::from_str("latest version not in the graph")));
    }
    let mut fuel: usize = entries.len();
    while fuel > 0
        invariant
            has_entry(entries@, latest@),
            fuel <= entries@.len(),
            match current {
                Some(entry) => {
                    &&& exists|j: int|
                        0 <= j < entries@.len() && entries@[j] == *entry && (
                        #[trigger] entries@[j]).version_string@ == entry.version_string@
                    &&& forall|k: int|
                        0 <= k < patches@.len() ==> (#[trigger] patches@[k]).name@
                            != entry.version_string@
                    &&& (patches@.len() == 0 ==> entry.version_string@ == latest@)
                    &&& (patches@.len() >= 1 ==> patches_linked(
                        entries@,
                        PatchView {
                            name: entry.version_string@,
                            url: Seq::empty(),
                            size: 0,
                        },
                        patches@[patches@.len() - 1]@,
                    ))
                    &&& (patches@.len() >= 1 ==> newest_choice(
                        entries@,
                        patches@,
                        patches@[patches@.len() - 1]@,
                        entry.version_string@,
                    ))
                },
                None => patches@.len() >= 1,
            },
            forall|k: int|
                1 <= k < patches@.len() ==> newest_choice(
                    entries@,
                    patches@.take(k),
                    (#[trigger] patches@[k - 1])@,
                    patches@[k].name@,
                ),
            patches@.len() == 0 ==> current is Some,
            patches@.len() >= 1 ==> patches@[0].name@ == latest@,
            forall|k: int, l: int|
                0 <= k < l < patches@.len() ==> (#[trigger] patches@[k]).name@ != (
                #[trigger] patches@[l]).name@,
            forall|k: int|
                0 <= k < patches@.len() ==> patch_from_entries(entries@, (#[trigger] patches@[k])@),
            forall|k: int|
                1 <= k < patches@.len() ==> patches_linked(
                    entries@,
                    (#[trigger] patches@[k])@,
                    patches@[k - 1]@,
                ),
        decreases fuel,
    {
        let entry = match current {
            Some(entry) => entry,
            None => {
                break ;
            },
        };
        if entry.patches.len() == 0 {
            let mut message = String::from_str("no patches for version ");
            message.append(entry.version_string.as_str());
            return Err(Error::Failure(message));
        }
        let ghost pre_patches = patches@;
        let recorded = Patch {
            name: entry.version_string.clone(),
            url: entry.patches[0].url.clone(),
            size: entry.patches[0].size,
        };
        let ghost recv = recorded@;
        proof {
            assert(recv.name == entry.version_string@);
            assert(patch_from_entries(entries@, recv));
        }
        patches.push(recorded);
        proof {
            assert(patches@.len() == pre_patches.len() + 1);
            assert(patches@[patches@.len() - 1]@ == recv);
            assert(forall|k: int| 0 <= k < pre_patches.len() ==> patches@[k] == pre_patches[k]);
            assert forall|k: int| 1 <= k < patches@.len() implies newest_choice(
                entries@,
                patches@.take(k),
                (#[trigger] patches@[k - 1])@,
                patches@[k].name@,
            ) by {
                assert(patches@.take(k) =~= pre_patches.take(k));
                if k < pre_patches.len() {
                    assert(newest_choice(
                        entries@,
                        pre_patches.take(k),
                        pre_patches[k - 1]@,
                        pre_patches[k].name@,
                    ));
                } else {
                    assert(pre_patches.take(k) =~= pre_patches);
                    assert(newest_choice(
                        entries@,
                        pre_patches,
                        pre_patches[k - 1]@,
                        entry.version_string@,
                    ));
                    assert(patches@[k].name@ == entry.version_string@);
                }
            }
        }
        let mut best: Option<&VersionEntry> = None;
        let mut p: usize = 0;
        while p < entry.prerequisite_versions.len()
            invariant
                0 <= p <= entry.prerequisite_versions@.len(),
                forall|k: int|
                    0 <= k < patches@.len() ==> patch_from_entries(
                        entries@,
                        (#[trigger] patches@[k])@,
                    ),
                forall|k: int, l: int|
                    0 <= k < l < patches@.len() ==> (#[trigger] patches@[k]).name@ != (
                    #[trigger] patches@[l]).name@,
                patches@.len() >= 1,
                patches@[0].name@ == latest@,
                forall|k: int|
                    1 <= k < patches@.len() ==> patches_linked(
                        entries@,
                        (#[trigger] patches@[k])@,
                        patches@[k - 1]@,
                    ),
                exists|j: int|
                    0 <= j < entries@.len() && entries@[j] == *entry && (
                    #[trigger] entries@[j]).version_string@ == entry.version_string@,
                patches@[patches@.len() - 1].name@ == entry.version_string@,
                forall|k: int|
                    1 <= k < patches@.len() ==> newest_choice(
                        entries@,
                        patches@.take(k),
                        (#[trigger] patches@[k - 1])@,
                        patches@[k].name@,
                    ),
                match best {
                    Some(b) => {
                        &&& exists|j: int|
                            0 <= j < entries@.len() && entries@[j] == *b && (
                            #[trigger] entries@[j]).version_string@ == b.version_string@
                        &&& forall|k: int|
                            0 <= k < patches@.len() ==> (#[trigger] patches@[k]).name@
                                != b.version_string@
                        &&& exists|q: int|
                            walk_candidate(entries@, patches@, *entry, q) && (
                            #[trigger] entry.prerequisite_versions@[q])@ == b.version_string@
                        &&& forall|q: int|
                            0 <= q < p && walk_candidate(entries@, patches@, *entry, q)
                                ==> crate::rank::chars_le(
                                (#[trigger] entry.prerequisite_versions@[q])@,
                                b.version_string@,
                            )
                    },
                    None => forall|q: int|
                        0 <= q < p ==> !walk_candidate(entries@, patches@, *entry, q),
                },
            decreases entry.prerequisite_versions@.len() - p,
        {
            let prereq_name = &entry.prerequisite_versions[p];
            proof {
                assert(entry.prerequisite_versions@[p as int]@ == prereq_name@);
            }
            if !patch_taken(&patches, prereq_name) {
                match find_active_entry(entries, prereq_name) {
                    Some(candidate) => {
                        proof {
                            assert(walk_candidate(entries@, patches@, *entry, p as int));
                        }
                        let better = match &best {
                            None => true,
                            Some(b) => name_le(&b.version_string, &candidate.version_string),
                        };
                        if better {
                            proof {
                                crate::rank::lemma_chars_le_refl(candidate.version_string@);
                                match best {
                                    Some(b) => {
                                        assert forall|q: int|
                                            0 <= q < p + 1 && walk_candidate(
                                                entries@,
                                                patches@,
                                                *entry,
                                                q,
                                            ) implies crate::rank::chars_le(
                                            (#[trigger] entry.prerequisite_versions@[q])@,
                                            candidate.version_string@,
                                        ) by {
                                            if q < p {
                                                crate::rank::lemma_chars_le_trans(
                                                    entry.prerequisite_versions@[q]@,
                                                    b.version_string@,
                                                    candidate.version_string@,
                                                );
                                            }
                                        }
                                    },
                                    None => {},
                                }
                            }
                            best = Some(candidate);
                        } else {
                            proof {
                                match best {
                                    Some(b) => {
                                        crate::rank::lemma_chars_le_total(
                                            b.version_string@,
                                            candidate.version_string@,
                                        );
                                        assert(crate::rank::chars_le(
                                            candidate.version_string@,
                                            b.version_string@,
                                        ));
                                    },
                                    None => {
                                        assert(false);
                                    },
                                }
                            }
                        }
                    },
                    None => {
                        proof {
                            assert(!has_active_entry(entries@, prereq_name@));
                            assert(!walk_candidate(entries@, patches@, *entry, p as int));
                        }
                    },
                }
            } else {
                proof {
                    assert(name_taken(patches@, prereq_name@));
                    assert(!walk_candidate(entries@, patches@, *entry, p as int));
                }
            }
            p += 1;
        }
        proof {
            match best {
                Some(b) => {
                    let j = choose|j: int|
                        0 <= j < entries@.len() && entries@[j] == *entry && (
                        #[trigger] entries@[j]).version_string@ == entry.version_string@;
                    assert(entries@[j].prerequisite_versions@ == entry.prerequisite_versions@);
                    assert(exists|q: int|
                        walk_candidate(entries@, patches@, entries@[j], q) && (
                        #[trigger] entries@[j].prerequisite_versions@[q])@ == b.version_string@);
                    assert forall|q: int|
                        walk_candidate(entries@, patches@, entries@[j], q) implies crate::rank::chars_le(
                        (#[trigger] entries@[j].prerequisite_versions@[q])@,
                        b.version_string@,
                    ) by {
                        assert(walk_candidate(entries@, patches@, *entry, q));
                        assert(0 <= q < entry.prerequisite_versions@.len());
                    }
                    assert(entries@[j].version_string@ == patches@[patches@.len() - 1].name@);
                    assert(newest_choice(
                        entries@,
                        patches@,
                        patches@[patches@.len() - 1]@,
                        b.version_string@,
                    ));
                    assert(patches_linked(
                        entries@,
                        PatchView { name: b.version_string@, url: Seq::empty(), size: 0 },
                        patches@[patches@.len() - 1]@,
                    ));
                },
                None => {},
            }
        }
        current = best;
        fuel = fuel - 1;
    }
    if current.is_some() {
        return Err(Error::Failure(String::from_str("patch walk outlived the version count")));
    }
    let ghost walk = patches@;
    let reversed = reverse_patches(patches);
    proof {
        let n = walk.len() as int;
        assert forall|k: int| 0 <= k < reversed@.len() - 1 implies newest_choice(
            entries@,
            reversed@.skip(k + 1),
            reversed@[k + 1]@,
            (#[trigger] reversed@[k]).name@,
        ) by {
            let i = n - 1 - k;
            assert(1 <= i < n);
            assert(newest_choice(entries@, walk.take(i), (walk[i - 1])@, walk[i].name@));
            assert(reversed@[k + 1] == walk[i - 1]);
            assert(reversed@[k] == walk[i]);
            assert forall|x: Seq<char>|
                name_taken(walk.take(i), x) == name_taken(reversed@.skip(k + 1), x) by {
                if name_taken(walk.take(i), x) {
                    let m = choose|m: int|
                        0 <= m < walk.take(i).len() && (#[trigger] walk.take(i)[m]).name@ == x;
                    assert(reversed@[n - 1 - m] == walk[m]);
                    assert(reversed@.skip(k + 1)[n - 1 - m - (k + 1)] == reversed@[n - 1 - m]);
                    assert((reversed@.skip(k + 1)[n - 1 - m - (k + 1)]).name@ == x);
                    assert(name_taken(reversed@.skip(k + 1), x));
                }
                if name_taken(reversed@.skip(k + 1), x) {
                    let m = choose|m: int|
                        0 <= m < reversed@.skip(k + 1).len() && (#[trigger] reversed@.skip(k + 1)[m]).name@
                            == x;
                    assert(reversed@.skip(k + 1)[m] == reversed@[m + k + 1]);
                    assert(reversed@[m + k + 1] == walk[n - 1 - (m + k + 1)]);
                    assert(walk.take(i)[n - 1 - (m + k + 1)] == walk[n - 1 - (m + k + 1)]);
                    assert((walk.take(i)[n - 1 - (m + k + 1)]).name@ == x);
                    assert(name_taken(walk.take(i), x));
                }
            }
            lemma_choice_same_names(
                entries@,
                walk.take(i),
                reversed@.skip(k + 1),
                (walk[i - 1])@,
                walk[i].name@,
            );
        }
    }
    Ok(reversed)
}

/// Reverses a patch list (the walk builds newest-first; callers expect
/// oldest-first).
fn reverse_patches(input: Vec<Patch>) -> (r: Vec<Patch>)
    ensures
        r@.len() == input@.len(),
        forall|k: int| 0 <= k < r@.len() ==> #[trigger] r@[k] == input@[input@.len() - 1 - k],
{
    let mut out: Vec<Patch> = Vec::new();
    let mut i: usize = input.len();
    let mut source = input;
    while i > 0
        invariant
            0 <= i <= source@.len(),
            out@.len() == source@.len() - i,
            forall|k: int|
                0 <= k < out@.len() ==> #[trigger] out@[k] == source@[source@.len() - 1 - k],
        decreases i,
    {
        i -= 1;
        let item = Patch {
            name: source[i].name.clone(),
            url: source[i].url.clone(),
            size: source[i].size,
        };
        proof {
            assert(item@ == source@[i as int]@);
        }
        out.push(item);
    }
    out
}

} // verus!
