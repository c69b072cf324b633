//! The package recommendation list: its records and its text form, one record
//! per line with tabs between the fields.

use crate::text::{chars_of, lines, split, split_lines, split_text, texts};
use vstd::prelude::*;
use vstd::string::*;

verus! {

/// How safely a package can be removed.
#[derive(Clone, Copy, Debug, PartialEq, Eq, Structural)]
pub enum Tier {
    Recommended,
    Advanced,
    Expert,
    Unsafe,
    /// Not on the list.
    Unlisted,
}

/// What the list says of one package.
#[derive(Debug, PartialEq, Eq)]
pub struct PackageRecord {
    pub name: String,
    pub tier: Tier,
    pub description: String,
    pub side_effects: Vec<String>,
}

pub struct RecordView {
    pub name: Seq<char>,
    pub tier: Tier,
    pub description: Seq<char>,
    pub side_effects: Seq<Seq<char>>,
}

impl View for PackageRecord {
    type V = RecordView;

    open spec fn view(&self) -> RecordView {
        RecordView {
            name: self.name@,
            tier: self.tier,
            description: self.description@,
            side_effects: texts(self.side_effects@),
        }
    }
}

/// What is wrong with a list, and on which line, counted from 0. It is the
/// first line that is wrong in either way.
#[derive(Clone, Copy, Debug, PartialEq, Eq, Structural)]
pub enum ListError {
    /// The line is no well-formed record.
    Malformed { line: usize },
    /// The line names a package that an earlier line names.
    Duplicate { line: usize },
}

pub open spec fn record_views(v: Seq<PackageRecord>) -> Seq<RecordView> {
    Seq::new(v.len(), |i: int| v[i]@)
}

/// The tier that a word of the list names.
pub open spec fn tier_named(word: Seq<char>) -> Option<Tier> {
    if word == "Recommended"@ {
        Some(Tier::Recommended)
    } else if word == "Advanced"@ {
        Some(Tier::Advanced)
    } else if word == "Expert"@ {
        Some(Tier::Expert)
    } else if word == "Unsafe"@ {
        Some(Tier::Unsafe)
    } else if word == "Unlisted"@ {
        Some(Tier::Unlisted)
    } else {
        None
    }
}

/// The record that a line holds: a name that is not empty, a tier word and a
/// description, then any number of side effects, with a tab between each two.
pub open spec fn record_of(line: Seq<char>) -> Option<RecordView> {
    let fields = split(line, '\t');
    if fields.len() >= 3 && fields[0].len() > 0 {
        match tier_named(fields[1]) {
            Some(tier) => Some(
                RecordView {
                    name: fields[0],
                    tier: tier,
                    description: fields[2],
                    side_effects: fields.skip(3),
                },
            ),
            None => None,
        }
    } else {
        None
    }
}

pub open spec fn malformed_at(ls: Seq<Seq<char>>, i: int) -> bool {
    0 <= i < ls.len() && record_of(ls[i]) is None
}

/// Lines `j` and `i` hold records of the same package.
pub open spec fn same_name(ls: Seq<Seq<char>>, j: int, i: int) -> bool {
    &&& 0 <= j < ls.len()
    &&& 0 <= i < ls.len()
    &&& record_of(ls[j]) is Some
    &&& record_of(ls[i]) is Some
    &&& record_of(ls[j])->0.name == record_of(ls[i])->0.name
}

pub open spec fn duplicate_at(ls: Seq<Seq<char>>, i: int) -> bool {
    exists|j: int| 0 <= j < i && same_name(ls, j, i)
}

pub open spec fn bad_at(ls: Seq<Seq<char>>, i: int) -> bool {
    malformed_at(ls, i) || duplicate_at(ls, i)
}

pub open spec fn first_bad(ls: Seq<Seq<char>>, i: int) -> bool {
    bad_at(ls, i) && forall|j: int| 0 <= j < i ==> !bad_at(ls, j)
}

/// The records of lines that are all well-formed.
pub open spec fn records_of(ls: Seq<Seq<char>>) -> Seq<RecordView> {
    Seq::new(ls.len(), |i: int| record_of(ls[i])->0)
}

/// The list that a text holds. Every line must be a well-formed record and
/// no package may be named twice: a text that fails either way holds no list
/// at all, and the error names its first bad line.
pub open spec fn list_of(text: Seq<char>) -> Result<Seq<RecordView>, ListError> {
    let ls = lines(text);
    if exists|i: int| bad_at(ls, i) {
        let i = choose|i: int| first_bad(ls, i);
        if malformed_at(ls, i) {
            Err(ListError::Malformed { line: i as usize })
        } else {
            Err(ListError::Duplicate { line: i as usize })
        }
    } else {
        Ok(records_of(ls))
    }
}

/// Position `i` of `records` holds the record of this package.
pub open spec fn named_at(records: Seq<RecordView>, i: int, name: Seq<char>) -> bool {
    0 <= i < records.len() && records[i].name == name
}

pub open spec fn lists(records: Seq<RecordView>, name: Seq<char>) -> bool {
    exists|i: int| named_at(records, i, name)
}

/// The record of this package, if the list has one.
pub open spec fn record_for(records: Seq<RecordView>, name: Seq<char>) -> Option<RecordView> {
    if lists(records, name) {
        Some(records[choose|i: int| named_at(records, i, name)])
    } else {
        None
    }
}

/// The tier of a package: that of its record, `Unlisted` without one.
pub open spec fn tier_for(records: Seq<RecordView>, name: Seq<char>) -> Tier {
    match record_for(records, name) {
        Some(r) => r.tier,
        None => Tier::Unlisted,
    }
}

/// No package has two records.
pub open spec fn distinct_names(records: Seq<RecordView>) -> bool {
    forall|i: int, j: int| 0 <= i < j < records.len() ==> records[i].name != records[j].name
}

/// The first bad line is the one that has no bad line before it.
pub proof fn lemma_first_bad(ls: Seq<Seq<char>>, i: int)
    requires
        first_bad(ls, i),
    ensures
        (choose|c: int| first_bad(ls, c)) == i,
{
    let c = choose|c: int| first_bad(ls, c);
    assert(first_bad(ls, c));
    if c < i {
        assert(!bad_at(ls, c));
    }
    if i < c {
        assert(!bad_at(ls, i));
    }
}

/// A text that holds a list names no package twice.
pub proof fn lemma_list_has_distinct_names(text: Seq<char>)
    requires
        list_of(text) is Ok,
    ensures
        distinct_names(list_of(text)->Ok_0),
{
    let ls = lines(text);
    let records = records_of(ls);
    assert forall|i: int, j: int| 0 <= i < j < records.len() implies records[i].name
        != records[j].name by {
        assert(!bad_at(ls, i));
        assert(!bad_at(ls, j));
        if records[i].name == records[j].name {
            assert(same_name(ls, i, j));
        }
    }
}

/// Where names are distinct, the record at a position is the one that its
/// name finds.
pub proof fn lemma_record_at(records: Seq<RecordView>, i: int, name: Seq<char>)
    requires
        distinct_names(records),
        named_at(records, i, name),
    ensures
        record_for(records, name) == Some(records[i]),
{
    let c = choose|c: int| named_at(records, c, name);
    assert(c == i);
}

fn parse_tier(word: &String) -> (r: Option<Tier>)
    ensures
        r == tier_named(word@),
{
    if *word == String::from_str("Recommended") {
        Some(Tier::Recommended)
    } else if *word == String::from_str("Advanced") {
        Some(Tier::Advanced)
    } else if *word == String::from_str("Expert") {
        Some(Tier::Expert)
    } else if *word == String::from_str("Unsafe") {
        Some(Tier::Unsafe)
    } else if *word == String::from_str("Unlisted") {
        Some(Tier::Unlisted)
    } else {
        None
    }
}

/// Reads one line of the list; see [`record_of`].
pub fn parse_record(line: &str) -> (r: Option<PackageRecord>)
    ensures
        match r {
            Some(p) => record_of(line@) == Some(p@),
            None => record_of(line@) is None,
        },
{
    let chars = chars_of(line);
    let fields = split_text(&chars, '\t');
    let ghost f = texts(fields@);
    assert(f == split(line@, '\t'));
    if fields.len() < 3 {
        return None;
    }
    assert(f[0] == fields@[0]@);
    assert(f[1] == fields@[1]@);
    assert(f[2] == fields@[2]@);
    if fields[0].as_str().unicode_len() == 0 {
        return None;
    }
    let tier = match parse_tier(&fields[1]) {
        Some(t) => t,
        None => {
            return None;
        },
    };
    let mut side_effects: Vec<String> = Vec::new();
    let mut i: usize = 3;
    assert(texts(side_effects@) == f.subrange(3, 3));
    while i < fields.len()
        invariant
            3 <= i <= fields.len(),
            f == texts(fields@),
            texts(side_effects@) == f.subrange(3, i as int),
        decreases fields.len() - i,
    {
        let ghost before = texts(side_effects@);
        side_effects.push(fields[i].clone());
        assert(texts(side_effects@) == before.push(fields@[i as int]@));
        assert(f.subrange(3, i as int + 1) == f.subrange(3, i as int).push(f[i as int]));
        i = i + 1;
    }
    assert(f.subrange(3, i as int) == f.skip(3));
    Some(
        PackageRecord {
            name: fields[0].clone(),
            tier,
            description: fields[2].clone(),
            side_effects,
        },
    )
}

fn position_of(records: &Vec<PackageRecord>, name: &str) -> (r: Option<usize>)
    ensures
        match r {
            Some(i) => named_at(record_views(records@), i as int, name@),
            None => !lists(record_views(records@), name@),
        },
{
    let wanted = String::from_str(name);
    let mut i: usize = 0;
    while i < records.len()
        invariant
            i <= records.len(),
            wanted@ == name@,
            forall|j: int| 0 <= j < i ==> !named_at(record_views(records@), j, name@),
        decreases records.len() - i,
    {
        if records[i].name == wanted {
            return Some(i);
        }
        i = i + 1;
    }
    None
}

/// Reads a whole list; see [`list_of`].
pub fn parse_list(text: &str) -> (r: Result<Vec<PackageRecord>, ListError>)
    ensures
        match r {
            Ok(records) => list_of(text@) == Ok::<Seq<RecordView>, ListError>(
                record_views(records@),
            ),
            Err(e) => list_of(text@) == Err::<Seq<RecordView>, ListError>(e),
        },
{
    let ls = split_lines(text);
    let ghost all = texts(ls@);
    let mut records: Vec<PackageRecord> = Vec::new();
    let mut i: usize = 0;
    while i < ls.len()
        invariant
            i <= ls.len(),
            all == texts(ls@),
            all == lines(text@),
            records@.len() == i,
            forall|j: int| 0 <= j < i ==> !bad_at(all, j),
            forall|j: int|
                0 <= j < i ==> record_of(all[j]) == Some((#[trigger] record_views(records@)[j])),
        decreases ls.len() - i,
    {
        let ghost before = record_views(records@);
        let ghost here = i as int;
        assert(all[here] == ls@[here]@);
        match parse_record(ls[i].as_str()) {
            None => {
                proof {
                    assert(malformed_at(all, here));
                    assert(first_bad(all, here));
                    lemma_first_bad(all, here);
                }
                return Err(ListError::Malformed { line: i });
            },
            Some(p) => {
                match position_of(&records, p.name.as_str()) {
                    Some(j) => {
                        proof {
                            assert(before[j as int].name == p@.name);
                            assert(same_name(all, j as int, here));
                            assert(duplicate_at(all, here));
                            assert(first_bad(all, here));
                            lemma_first_bad(all, here);
                        }
                        return Err(ListError::Duplicate { line: i });
                    },
                    None => {
                        let ghost pv = p@;
                        records.push(p);
                        proof {
                            let after = record_views(records@);
                            assert(after == before.push(pv));
                            assert(!duplicate_at(all, here)) by {
                                if duplicate_at(all, here) {
                                    let j = choose|j: int| 0 <= j < here && same_name(all, j, here);
                                    assert(named_at(before, j, pv.name));
                                }
                            }
                            assert forall|j: int| 0 <= j < i + 1 implies record_of(all[j]) == Some(
                                (#[trigger] after[j]),
                            ) by {
                                if j < i {
                                    assert(after[j] == before[j]);
                                }
                            }
                        }
                    },
                }
            },
        }
        i = i + 1;
    }
    proof {
        assert(record_views(records@) =~= records_of(all));
        assert(!exists|k: int| bad_at(all, k));
    }
    Ok(records)
}

} // verus!
