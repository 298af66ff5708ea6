use vstd::prelude::*;

use crate::errors::AgentError;
use crate::timestamp::Timestamp;

verus! {

/// What one directory entry of the live-certificate directory showed when
/// the caller enumerated it.  Times are microseconds since the epoch;
/// `None` stands for a metadata read that failed.
///
/// A `Symlink` record stands for a symlink that resolves to a regular
/// file, or one whose resolution failed (`target_modified` then `None`);
/// a symlink resolving to anything but a regular file is handed in as
/// `Other`.  The record carries both the link's own modification time and
/// the resolved target's: the snapshot must rest on the target's alone.
pub enum EntryRecord {
    Regular { name: Vec<u8>, modified: Option<i64> },
    Symlink { name: Vec<u8>, link_modified: Option<i64>, target_modified: Option<i64> },
    Other { name: Vec<u8> },
    Unreadable,
}

/// The bytes of the certificate file suffix `.pem`.
pub open spec fn pem_suffix() -> Seq<u8> {
    seq![46u8, 112u8, 101u8, 109u8]
}

pub open spec fn is_pem_name(name: Seq<u8>) -> bool {
    name.len() >= 4 && name.subrange(name.len() - 4, name.len() as int) == pem_suffix()
}

/// Whether the entry counts as certificate material: a regular file or a
/// symlink whose name carries the certificate suffix.
pub open spec fn qualifies(e: EntryRecord) -> bool {
    match e {
        EntryRecord::Regular { name, .. } => is_pem_name(name@),
        EntryRecord::Symlink { name, .. } => is_pem_name(name@),
        _ => false,
    }
}

/// The modification instant that counts for a qualifying entry: the file's
/// own for a regular file, the resolved target's for a symlink.
pub open spec fn effective_modified(e: EntryRecord) -> Option<i64> {
    match e {
        EntryRecord::Regular { modified, .. } => modified,
        EntryRecord::Symlink { target_modified, .. } => target_modified,
        _ => None,
    }
}

/// Whether the entry makes the whole inspection fail: an unreadable entry,
/// or certificate material whose modification time could not be read.
pub open spec fn entry_blocks(e: EntryRecord) -> bool {
    e is Unreadable || (qualifies(e) && effective_modified(e) is None)
}

pub open spec fn any_blocks(s: Seq<EntryRecord>) -> bool {
    exists|i: int| 0 <= i < s.len() && entry_blocks(#[trigger] s[i])
}

pub open spec fn has_qualifying(s: Seq<EntryRecord>) -> bool {
    exists|i: int| 0 <= i < s.len() && qualifies(#[trigger] s[i])
}

/// The maximum effective modification instant over the qualifying entries,
/// folded from the sentinel minimum.
pub open spec fn max_qual_time(s: Seq<EntryRecord>) -> int
    decreases s.len(),
{
    if s.len() == 0 {
        i64::MIN as int
    } else {
        let m = max_qual_time(s.drop_last());
        let e = s.last();
        if qualifies(e) && effective_modified(e) is Some && effective_modified(e)->0 > m {
            effective_modified(e)->0 as int
        } else {
            m
        }
    }
}

/// The inspection verdict over an enumerated directory: an unreadable
/// entry or an unreadable qualifying time fails the whole run, a directory
/// without certificate material is a data error, and otherwise the
/// snapshot is the newest effective modification instant.
pub open spec fn spec_inspect(s: Seq<EntryRecord>) -> Result<int, AgentError> {
    if any_blocks(s) {
        Err(AgentError::Environment)
    } else if !has_qualifying(s) {
        Err(AgentError::Data)
    } else {
        Ok(max_qual_time(s))
    }
}

fn ends_with_pem(name: &Vec<u8>) -> (r: bool)
    ensures
        r == is_pem_name(name@),
{
    let n = name.len();
    if n < 4 {
        return false;
    }
    let r = name[n - 4] == 46 && name[n - 3] == 112 && name[n - 2] == 101 && name[n - 1] == 109;
    proof {
        if r {
            assert(name@.subrange(name@.len() - 4, name@.len() as int) =~= pem_suffix());
        } else {
            if name@.subrange(name@.len() - 4, name@.len() as int) == pem_suffix() {
                assert(name@[name@.len() - 4] == pem_suffix()[0]);
                assert(name@[name@.len() - 3] == pem_suffix()[1]);
                assert(name@[name@.len() - 2] == pem_suffix()[2]);
                assert(name@[name@.len() - 1] == pem_suffix()[3]);
            }
        }
    }
    r
}

/// The true last-modification instant of the local certificate material:
/// the newest effective modification time among the `.pem` entries, with a
/// symlinked entry measured by its resolved target.  Fails fast on any
/// unreadable entry; a directory without certificate material is an error,
/// never "nothing to sync".
pub fn latest_certificate_time(entries: &Vec<EntryRecord>) -> (r: Result<Timestamp, AgentError>)
    ensures
        match r {
            Ok(t) => spec_inspect(entries@) == Ok::<int, AgentError>(t.micros as int),
            Err(e) => spec_inspect(entries@) == Err::<int, AgentError>(e),
        },
{
    let n = entries.len();
    let mut newest: i64 = i64::MIN;
    let mut found: bool = false;
    let mut i: usize = 0;
    while i < n
        invariant
            0 <= i <= n,
            n == entries@.len(),
            forall|j: int| 0 <= j < i ==> !entry_blocks(#[trigger] entries@[j]),
            found == has_qualifying(entries@.take(i as int)),
            newest as int == max_qual_time(entries@.take(i as int)),
        decreases n - i,
    {
        let ghost prefix = entries@.take(i as int);
        let ghost next = entries@.take(i + 1);
        proof {
            assert(next.drop_last() =~= prefix);
            assert(next.last() == entries@[i as int]);
        }
        match &entries[i] {
            EntryRecord::Unreadable => {
                proof {
                    assert(entry_blocks(entries@[i as int]));
                }
                return Err(AgentError::Environment);
            },
            EntryRecord::Regular { name, modified } => {
                if ends_with_pem(name) {
                    match modified {
                        Some(m) => {
                            found = true;
                            if *m > newest {
                                newest = *m;
                            }
                        },
                        None => {
                            proof {
                                assert(entry_blocks(entries@[i as int]));
                            }
                            return Err(AgentError::Environment);
                        },
                    }
                }
            },
            EntryRecord::Symlink { name, link_modified: _, target_modified } => {
                if ends_with_pem(name) {
                    match target_modified {
                        Some(m) => {
                            found = true;
                            if *m > newest {
                                newest = *m;
                            }
                        },
                        None => {
                            proof {
                                assert(entry_blocks(entries@[i as int]));
                            }
                            return Err(AgentError::Environment);
                        },
                    }
                }
            },
            EntryRecord::Other { name: _ } => {},
        }
        i = i + 1;
        proof {
            if has_qualifying(next) {
                let j = choose|j: int| 0 <= j < next.len() && qualifies(#[trigger] next[j]);
                if j < next.len() - 1 {
                    assert(qualifies(prefix[j]));
                } else {
                    assert(qualifies(next.last()));
                }
            }
            if has_qualifying(prefix) {
                let j = choose|j: int| 0 <= j < prefix.len() && qualifies(#[trigger] prefix[j]);
                assert(qualifies(next[j]));
            }
        }
    }
    proof {
        assert(entries@.take(n as int) =~= entries@);
    }
    if !found {
        return Err(AgentError::Data);
    }
    Ok(Timestamp { micros: newest })
}

/// Law: when every qualifying entry is readable and at least one is
/// present, the snapshot equals the effective modification time of some
/// qualifying entry and is no older than any of them.  In particular, for
/// a directory of only regular `.pem` files it is the maximum file
/// modification time among them, and a symlinked `.pem` entry weighs in
/// with its target's time.
pub proof fn lemma_snapshot_is_max(s: Seq<EntryRecord>)
    requires
        !any_blocks(s),
        has_qualifying(s),
    ensures
        spec_inspect(s) == Ok::<int, AgentError>(max_qual_time(s)),
        exists|i: int|
            0 <= i < s.len() && qualifies(#[trigger] s[i]) && effective_modified(s[i])->0
                == max_qual_time(s),
        forall|i: int|
            0 <= i < s.len() && qualifies(#[trigger] s[i]) ==> effective_modified(s[i])->0
                <= max_qual_time(s),
    decreases s.len(),
{
    assert(s.len() > 0) by {
        let j = choose|j: int| 0 <= j < s.len() && qualifies(#[trigger] s[j]);
    }
    let last = s.last();
    let rest = s.drop_last();
    assert forall|i: int| 0 <= i < rest.len() implies !entry_blocks(#[trigger] rest[i])
        && rest[i] == s[i] by {
        assert(rest[i] == s[i]);
    }
    if qualifies(last) {
        assert(effective_modified(last) is Some);
        if has_qualifying(rest) {
            lemma_snapshot_is_max(rest);
            if effective_modified(last)->0 > max_qual_time(rest) {
                assert(max_qual_time(s) == effective_modified(last)->0);
            } else {
                let j = choose|j: int|
                    0 <= j < rest.len() && qualifies(#[trigger] rest[j]) && effective_modified(
                        rest[j],
                    )->0 == max_qual_time(rest);
                assert(qualifies(s[j]) && effective_modified(s[j])->0 == max_qual_time(s));
            }
        } else {
            lemma_max_no_qualifying(rest);
            assert(max_qual_time(s) == effective_modified(last)->0);
            assert forall|i: int| 0 <= i < s.len() && qualifies(#[trigger] s[i]) implies i
                == s.len() - 1 by {
                if i < s.len() - 1 {
                    assert(qualifies(rest[i]));
                }
            }
        }
    } else {
        assert(max_qual_time(s) == max_qual_time(rest));
        assert(has_qualifying(rest)) by {
            let j = choose|j: int| 0 <= j < s.len() && qualifies(#[trigger] s[j]);
            assert(j < s.len() - 1);
            assert(qualifies(rest[j]));
        }
        lemma_snapshot_is_max(rest);
        let j = choose|j: int|
            0 <= j < rest.len() && qualifies(#[trigger] rest[j]) && effective_modified(rest[j])->0
                == max_qual_time(rest);
        assert(qualifies(s[j]) && effective_modified(s[j])->0 == max_qual_time(s));
    }
    lemma_max_is_upper_bound(s);
    assert forall|i: int| 0 <= i < s.len() && qualifies(#[trigger] s[i]) implies effective_modified(
        s[i],
    )->0 <= max_qual_time(s) by {
        assert(!entry_blocks(s[i]));
    }
}

proof fn lemma_max_is_upper_bound(s: Seq<EntryRecord>)
    ensures
        forall|i: int|
            0 <= i < s.len() && qualifies(#[trigger] s[i]) && effective_modified(s[i]) is Some
                ==> effective_modified(s[i])->0 <= max_qual_time(s),
    decreases s.len(),
{
    if s.len() > 0 {
        let rest = s.drop_last();
        lemma_max_is_upper_bound(rest);
        assert(max_qual_time(rest) <= max_qual_time(s));
        assert forall|i: int|
            0 <= i < s.len() && qualifies(#[trigger] s[i]) && effective_modified(s[i])
                is Some implies effective_modified(s[i])->0 <= max_qual_time(s) by {
            if i < s.len() - 1 {
                assert(s[i] == rest[i]);
                assert(effective_modified(rest[i])->0 <= max_qual_time(rest));
            } else {
                assert(s[i] == s.last());
            }
        }
    }
}

/// Without certificate material the fold stays at the sentinel minimum.
proof fn lemma_max_no_qualifying(s: Seq<EntryRecord>)
    requires
        !has_qualifying(s),
    ensures
        max_qual_time(s) == i64::MIN as int,
    decreases s.len(),
{
    if s.len() > 0 {
        let rest = s.drop_last();
        assert forall|i: int| 0 <= i < rest.len() implies !qualifies(#[trigger] rest[i]) by {
            assert(rest[i] == s[i]);
        }
        lemma_max_no_qualifying(rest);
        assert(!qualifies(s.last()));
    }
}

/// How two enumerations of one directory may differ while showing the same
/// certificate material: entry for entry equal, except that a symlink's
/// own modification time may differ.
pub open spec fn same_apart_from_link_time(a: EntryRecord, b: EntryRecord) -> bool {
    match (a, b) {
        (
            EntryRecord::Symlink { name: n1, link_modified: _, target_modified: t1 },
            EntryRecord::Symlink { name: n2, link_modified: _, target_modified: t2 },
        ) => n1@ == n2@ && t1 == t2,
        _ => a == b,
    }
}

/// Law: the snapshot rests on a symlink's resolved target alone; the
/// symlink's own modification time never enters the verdict.
pub proof fn lemma_symlink_own_time_ignored(s1: Seq<EntryRecord>, s2: Seq<EntryRecord>)
    requires
        s1.len() == s2.len(),
        forall|i: int|
            0 <= i < s1.len() ==> same_apart_from_link_time(#[trigger] s1[i], #[trigger] s2[i]),
    ensures
        spec_inspect(s1) == spec_inspect(s2),
{
    assert forall|i: int| 0 <= i < s1.len() implies qualifies(#[trigger] s1[i]) == qualifies(
        #[trigger] s2[i],
    ) && effective_modified(s1[i]) == effective_modified(s2[i]) && entry_blocks(s1[i])
        == entry_blocks(s2[i]) by {
        assert(same_apart_from_link_time(s1[i], s2[i]));
    }
    lemma_max_equal_under_link_time(s1, s2);
    assert(any_blocks(s1) == any_blocks(s2)) by {
        if any_blocks(s1) {
            let j = choose|j: int| 0 <= j < s1.len() && entry_blocks(#[trigger] s1[j]);
            assert(entry_blocks(s2[j]));
        }
        if any_blocks(s2) {
            let j = choose|j: int| 0 <= j < s2.len() && entry_blocks(#[trigger] s2[j]);
            assert(entry_blocks(s1[j]));
        }
    }
    assert(has_qualifying(s1) == has_qualifying(s2)) by {
        if has_qualifying(s1) {
            let j = choose|j: int| 0 <= j < s1.len() && qualifies(#[trigger] s1[j]);
            assert(qualifies(s2[j]));
        }
        if has_qualifying(s2) {
            let j = choose|j: int| 0 <= j < s2.len() && qualifies(#[trigger] s2[j]);
            assert(qualifies(s1[j]));
        }
    }
}

proof fn lemma_max_equal_under_link_time(s1: Seq<EntryRecord>, s2: Seq<EntryRecord>)
    requires
        s1.len() == s2.len(),
        forall|i: int|
            0 <= i < s1.len() ==> same_apart_from_link_time(#[trigger] s1[i], #[trigger] s2[i]),
    ensures
        max_qual_time(s1) == max_qual_time(s2),
    decreases s1.len(),
{
    if s1.len() > 0 {
        let r1 = s1.drop_last();
        let r2 = s2.drop_last();
        assert forall|i: int| 0 <= i < r1.len() implies same_apart_from_link_time(
            #[trigger] r1[i],
            #[trigger] r2[i],
        ) by {
            assert(r1[i] == s1[i] && r2[i] == s2[i]);
            assert(same_apart_from_link_time(s1[i], s2[i]));
        }
        lemma_max_equal_under_link_time(r1, r2);
        assert(same_apart_from_link_time(s1.last(), s2.last()));
        assert(qualifies(s1.last()) == qualifies(s2.last()) && effective_modified(s1.last())
            == effective_modified(s2.last()));
    }
}

} // verus!
