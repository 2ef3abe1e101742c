use vstd::prelude::*;

use crate::bytes::bytes_eq;

verus! {

/// One known registry: its name (the lookup key), its home page, and the
/// endpoint URL that switching writes into the configuration.
#[derive(Debug)]
pub struct RegistryEntry {
    pub name: Vec<u8>,
    pub home: Vec<u8>,
    pub url: Vec<u8>,
}

/// The first entry of `s` named `name`, if any.
pub open spec fn spec_lookup(s: Seq<RegistryEntry>, name: Seq<u8>) -> Option<RegistryEntry>
    decreases s.len(),
{
    if s.len() == 0 {
        None
    } else if s[0].name@ == name {
        Some(s[0])
    } else {
        spec_lookup(s.skip(1), name)
    }
}

/// Whether some entry of `s` is named `name`.
pub open spec fn has_name(s: Seq<RegistryEntry>, name: Seq<u8>) -> bool {
    spec_lookup(s, name) is Some
}

/// `has_name` is the same as an entry with that name standing at some index.
pub proof fn lemma_has_name_index(s: Seq<RegistryEntry>, name: Seq<u8>)
    ensures
        has_name(s, name) <==> exists|i: int| 0 <= i < s.len() && s[i].name@ == name,
    decreases s.len(),
{
    if s.len() == 0 {
    } else if s[0].name@ == name {
        assert(s[0].name@ == name);
    } else {
        lemma_has_name_index(s.skip(1), name);
        if has_name(s, name) {
            let i = choose|i: int| 0 <= i < s.skip(1).len() && s.skip(1)[i].name@ == name;
            assert(s[i + 1] == s.skip(1)[i]);
        }
        if exists|i: int| 0 <= i < s.len() && s[i].name@ == name {
            let i = choose|i: int| 0 <= i < s.len() && s[i].name@ == name;
            assert(i > 0);
            assert(s.skip(1)[i - 1] == s[i]);
        }
    }
}

/// `s` with every entry dropped whose name an earlier entry already used.
pub open spec fn dedup_names(s: Seq<RegistryEntry>) -> Seq<RegistryEntry>
    decreases s.len(),
{
    if s.len() == 0 {
        Seq::empty()
    } else {
        let d = dedup_names(s.drop_last());
        if has_name(d, s.last().name@) {
            d
        } else {
            d.push(s.last())
        }
    }
}

/// After the dropping, no two entries share a name.
pub proof fn lemma_dedup_wf(s: Seq<RegistryEntry>)
    ensures
        forall|i: int, j: int|
            0 <= i < j < dedup_names(s).len() ==> dedup_names(s)[i].name@ != dedup_names(
                s,
            )[j].name@,
    decreases s.len(),
{
    if s.len() > 0 {
        lemma_dedup_wf(s.drop_last());
        let d = dedup_names(s.drop_last());
        if !has_name(d, s.last().name@) {
            lemma_has_name_index(d, s.last().name@);
            assert forall|i: int, j: int|
                0 <= i < j < dedup_names(s).len() implies dedup_names(s)[i].name@ != dedup_names(
                s,
            )[j].name@ by {
                if j < d.len() {
                } else {
                    assert(dedup_names(s)[j] == s.last());
                    assert(dedup_names(s)[i] == d[i]);
                }
            }
        }
    }
}

/// Entries whose names are already distinct pass the dropping untouched.
pub proof fn lemma_dedup_unique(s: Seq<RegistryEntry>)
    requires
        forall|i: int, j: int| 0 <= i < j < s.len() ==> s[i].name@ != s[j].name@,
    ensures
        dedup_names(s) == s,
    decreases s.len(),
{
    if s.len() > 0 {
        assert forall|i: int, j: int|
            0 <= i < j < s.drop_last().len() implies s.drop_last()[i].name@
            != s.drop_last()[j].name@ by {
            assert(s.drop_last()[i] == s[i]);
            assert(s.drop_last()[j] == s[j]);
        }
        lemma_dedup_unique(s.drop_last());
        lemma_has_name_index(s.drop_last(), s.last().name@);
        assert(!has_name(s.drop_last(), s.last().name@)) by {
            if exists|i: int| 0 <= i < s.drop_last().len() && s.drop_last()[i].name@ == s.last().name@ {
                let i = choose|i: int|
                    0 <= i < s.drop_last().len() && s.drop_last()[i].name@ == s.last().name@;
                assert(s[i].name@ == s[s.len() - 1].name@);
            }
        }
        assert(dedup_names(s) =~= s);
    }
}

/// The registry table: the entries of the bundled registry document, in
/// the order they were handed over, each name keying at most one entry.
#[derive(Debug)]
pub struct RegistryTable {
    pub entries: Vec<RegistryEntry>,
}

/// The first entry of `entries` named `name`, as its index.
pub fn find_entry(entries: &Vec<RegistryEntry>, name: &[u8]) -> (r: Option<usize>)
    ensures
        match r {
            Some(i) => i < entries@.len() && entries@[i as int].name@ == name@ && spec_lookup(
                entries@,
                name@,
            ) == Some(entries@[i as int]) && forall|j: int|
                0 <= j < i ==> entries@[j].name@ != name@,
            None => !has_name(entries@, name@),
        },
{
    let n = entries.len();
    let mut i: usize = 0;
    proof {
        assert(entries@.skip(0) =~= entries@);
    }
    while i < n
        invariant
            i <= n == entries@.len(),
            spec_lookup(entries@, name@) == spec_lookup(entries@.skip(i as int), name@),
            forall|j: int| 0 <= j < i ==> entries@[j].name@ != name@,
        decreases n - i,
    {
        proof {
            assert(entries@.skip(i as int)[0] == entries@[i as int]);
        }
        if bytes_eq(entries[i].name.as_slice(), name) {
            return Some(i);
        }
        proof {
            assert(entries@.skip(i as int).skip(1) =~= entries@.skip(i as int + 1));
        }
        i = i + 1;
    }
    None
}

impl RegistryTable {
    /// Every name keys at most one entry.
    pub open spec fn wf(self) -> bool {
        forall|i: int, j: int|
            0 <= i < j < self.entries@.len() ==> self.entries@[i].name@ != self.entries@[j].name@
    }

    /// Build the table from the document's entries in order; of entries
    /// that share a name, the first one stands.
    pub fn from_entries(entries: Vec<RegistryEntry>) -> (t: RegistryTable)
        ensures
            t.entries@ == dedup_names(entries@),
            t.wf(),
    {
        let ghost orig = entries@;
        let mut src = entries;
        let mut out: Vec<RegistryEntry> = Vec::new();
        let ghost i: int = 0;
        proof {
            assert(orig.skip(0) =~= orig);
            assert(orig.take(0) =~= Seq::<RegistryEntry>::empty());
            assert(out@ =~= dedup_names(orig.take(0)));
        }
        while src.len() > 0
            invariant
                0 <= i <= orig.len(),
                src@ == orig.skip(i),
                out@ == dedup_names(orig.take(i)),
            decreases src@.len(),
        {
            let e = src.remove(0);
            proof {
                assert(orig.skip(i)[0] == orig[i]);
                assert(orig.skip(i).skip(1) =~= orig.skip(i + 1));
            }
            let dup = find_entry(&out, e.name.as_slice());
            let ghost prev = out@;
            if dup.is_none() {
                out.push(e);
            }
            proof {
                assert(orig.take(i + 1).drop_last() =~= orig.take(i));
                assert(orig.take(i + 1).last() == orig[i]);
                assert(out@ == dedup_names(orig.take(i + 1)));
            }
            proof {
                i = i + 1;
            }
        }
        proof {
            assert(orig.take(orig.len() as int) =~= orig);
            lemma_dedup_wf(orig);
        }
        RegistryTable { entries: out }
    }

    /// The index of the entry named `name`, or `None` if the table has none.
    pub fn lookup(&self, name: &[u8]) -> (r: Option<usize>)
        ensures
            match r {
                Some(i) => i < self.entries@.len() && self.entries@[i as int].name@ == name@
                    && spec_lookup(self.entries@, name@) == Some(self.entries@[i as int]),
                None => !has_name(self.entries@, name@),
            },
    {
        find_entry(&self.entries, name)
    }
}

} // verus!
