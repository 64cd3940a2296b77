//! The register map of a LiteX SoC, read from its `csr.csv` file: register
//! and memory-region names, in lower case, with their addresses.

use vstd::prelude::*;
use vstd::string::*;

use crate::error::{ConfigError, ErrorView};
use crate::number::{lemma_decimal_value, number_error, parse_u32, spec_parse_number};
use crate::text::{decimal, lowercase, push_decimal, same_text, to_lowercase};

verus! {

/// A map from names to optional addresses; a name maps to `None` where its
/// address fell below the register window that the map was made relative to.
/// Names are compared as texts, and the entries are kept in a list in which
/// no name occurs twice.
#[derive(Debug)]
pub struct RegisterMap {
    entries: Vec<(String, Option<u32>)>,
}

impl View for RegisterMap {
    type V = Map<Seq<char>, Option<u32>>;

    /// The names and addresses, as a map.
    closed spec fn view(&self) -> Map<Seq<char>, Option<u32>> {
        entries_map(self.entries@)
    }
}

/// Whether `k` is the key of some entry.
pub open spec fn has_key(entries: Seq<(String, Option<u32>)>, k: Seq<char>) -> bool {
    exists|i: int| 0 <= i < entries.len() && (#[trigger] entries[i]).0@ == k
}

/// No two entries share a key.
pub open spec fn keys_distinct(entries: Seq<(String, Option<u32>)>) -> bool {
    forall|i: int, j: int|
        0 <= i < entries.len() && 0 <= j < entries.len() && i != j ==> (#[trigger] entries[i]).0@ != (#[trigger] entries[j]).0@
}

/// The map that a list of entries with distinct keys stands for.
pub open spec fn entries_map(entries: Seq<(String, Option<u32>)>) -> Map<Seq<char>, Option<u32>> {
    Map::new(
        |k: Seq<char>| has_key(entries, k),
        |k: Seq<char>| entries[choose|i: int| 0 <= i < entries.len() && (#[trigger] entries[i]).0@ == k].1,
    )
}

/// The value of the entry at `i`, read through the map.
proof fn lemma_entry_in_map(entries: Seq<(String, Option<u32>)>, i: int)
    requires
        keys_distinct(entries),
        0 <= i < entries.len(),
    ensures
        entries_map(entries).dom().contains(entries[i].0@),
        entries_map(entries)[entries[i].0@] == entries[i].1,
{
    let k = entries[i].0@;
    assert(has_key(entries, k));
    let j = choose|j: int| 0 <= j < entries.len() && (#[trigger] entries[j]).0@ == k;
    assert(entries[j].0@ == k);
}

/// An address made relative to a register window that starts at `offset`:
/// `None` where it lies below the window.
pub open spec fn shifted(v: Option<u32>, offset: u32) -> Option<u32> {
    match v {
        Some(a) => if a < offset { None } else { Some((a - offset) as u32) },
        None => None,
    }
}

/// Every name has an address.
pub open spec fn all_addressed(m: Map<Seq<char>, Option<u32>>) -> bool {
    forall|k: Seq<char>| m.dom().contains(k) ==> (#[trigger] m[k]) is Some
}

impl RegisterMap {
    #[verifier::type_invariant]
    spec fn inv(self) -> bool {
        keys_distinct(self.entries@)
    }

    /// An empty map.
    pub fn new() -> (res: RegisterMap)
        ensures
            res.view() == Map::<Seq<char>, Option<u32>>::empty(),
    {
        let res = RegisterMap { entries: Vec::new() };
        assert(res.view() =~= Map::<Seq<char>, Option<u32>>::empty());
        res
    }

    /// Where the entry with key `key` stands, if there is one.
    fn find(&self, key: &String) -> (res: Option<usize>)
        ensures
            match res {
                Some(i) => i < self.entries@.len() && self.entries@[i as int].0@ == key@,
                None => !has_key(self.entries@, key@),
            },
    {
        let n = self.entries.len();
        let mut i: usize = 0;
        while i < n
            invariant
                n == self.entries@.len(),
                i <= n,
                forall|j: int| 0 <= j < i ==> (#[trigger] self.entries@[j]).0@ != key@,
            decreases n - i,
        {
            if self.entries[i].0 == *key {
                return Some(i);
            }
            i = i + 1;
        }
        None
    }

    /// The address stored for `key`: `None` where the name is absent.
    pub fn get(&self, key: &str) -> (res: Option<Option<u32>>)
        ensures
            res == (if self.view().dom().contains(key@) { Some(self.view()[key@]) } else { None::<Option<u32>> }),
    {
        proof { use_type_invariant(self); }
        let k = key.to_owned();
        match self.find(&k) {
            Some(i) => {
                proof { lemma_entry_in_map(self.entries@, i as int); }
                Some(self.entries[i].1)
            },
            None => None,
        }
    }

    /// Whether the map holds `key`.
    pub fn contains_key(&self, key: &str) -> (res: bool)
        ensures
            res == self.view().dom().contains(key@),
    {
        self.get(key).is_some()
    }

    /// Stores `value` under `key`, replacing what was stored there.
    pub fn insert(&mut self, key: String, value: Option<u32>)
        ensures
            final(self).view() == old(self).view().insert(key@, value),
    {
        proof { use_type_invariant(&*self); }
        let ghost old_entries = self.entries@;
        let found = self.find(&key);
        let mut entries: Vec<(String, Option<u32>)> = Vec::new();
        std::mem::swap(&mut entries, &mut self.entries);
        match found {
            Some(i) => {
                let ghost k = key@;
                entries.set(i, (key, value));
                proof {
                    let e = entries@;
                    assert(e == old_entries.update(i as int, e[i as int]));
                    assert(keys_distinct(e)) by {
                        assert forall|a: int, b: int|
                            0 <= a < e.len() && 0 <= b < e.len() && a != b implies (#[trigger] e[a]).0@ != (#[trigger] e[b]).0@ by {
                            if a != i && b != i {
                                assert(e[a] == old_entries[a] && e[b] == old_entries[b]);
                            } else if a == i {
                                assert(e[b] == old_entries[b]);
                            } else {
                                assert(e[a] == old_entries[a]);
                            }
                        }
                    }
                    assert(entries_map(e) =~= entries_map(old_entries).insert(k, value)) by {
                        assert forall|q: Seq<char>| #[trigger] has_key(e, q) == (has_key(old_entries, q) || q == k) by {
                            if has_key(e, q) {
                                let j = choose|j: int| 0 <= j < e.len() && (#[trigger] e[j]).0@ == q;
                                if j != i {
                                    assert(old_entries[j] == e[j]);
                                }
                            }
                            if has_key(old_entries, q) {
                                let j = choose|j: int| 0 <= j < old_entries.len() && (#[trigger] old_entries[j]).0@ == q;
                                if j != i {
                                    assert(old_entries[j] == e[j]);
                                } else {
                                    assert(e[i as int].0@ == q);
                                }
                            }
                            if q == k {
                                assert(e[i as int].0@ == q);
                            }
                        }
                        assert forall|q: Seq<char>| has_key(e, q) implies entries_map(e)[q] == entries_map(old_entries).insert(k, value)[q] by {
                            let j = choose|j: int| 0 <= j < e.len() && (#[trigger] e[j]).0@ == q;
                            lemma_entry_in_map(e, j);
                            if j != i {
                                assert(old_entries[j] == e[j]);
                                lemma_entry_in_map(old_entries, j);
                            }
                        }
                    }
                }
            },
            None => {
                let ghost k = key@;
                entries.push((key, value));
                proof {
                    let e = entries@;
                    let n = old_entries.len() as int;
                    assert(e == old_entries.push(e[n]));
                    assert(keys_distinct(e)) by {
                        assert forall|a: int, b: int|
                            0 <= a < e.len() && 0 <= b < e.len() && a != b implies (#[trigger] e[a]).0@ != (#[trigger] e[b]).0@ by {
                            if a != n && b != n {
                                assert(e[a] == old_entries[a] && e[b] == old_entries[b]);
                            } else if a == n {
                                assert(e[b] == old_entries[b]);
                            } else {
                                assert(e[a] == old_entries[a]);
                            }
                        }
                    }
                    assert(entries_map(e) =~= entries_map(old_entries).insert(k, value)) by {
                        assert forall|q: Seq<char>| #[trigger] has_key(e, q) == (has_key(old_entries, q) || q == k) by {
                            if has_key(e, q) {
                                let j = choose|j: int| 0 <= j < e.len() && (#[trigger] e[j]).0@ == q;
                                if j != n {
                                    assert(old_entries[j] == e[j]);
                                }
                            }
                            if has_key(old_entries, q) {
                                let j = choose|j: int| 0 <= j < old_entries.len() && (#[trigger] old_entries[j]).0@ == q;
                                assert(old_entries[j] == e[j]);
                            }
                            if q == k {
                                assert(e[n].0@ == q);
                            }
                        }
                        assert forall|q: Seq<char>| has_key(e, q) implies entries_map(e)[q] == entries_map(old_entries).insert(k, value)[q] by {
                            let j = choose|j: int| 0 <= j < e.len() && (#[trigger] e[j]).0@ == q;
                            lemma_entry_in_map(e, j);
                            if j != n {
                                assert(old_entries[j] == e[j]);
                                lemma_entry_in_map(old_entries, j);
                            }
                        }
                    }
                }
            },
        }
        self.entries = entries;
    }

    /// Makes every address relative to a register window that starts at
    /// `offset`; a name whose address lies below the window keeps `None`.
    pub fn apply_offset(&mut self, offset: u32)
        requires
            all_addressed(old(self).view()),
        ensures
            final(self).view() == old(self).view().map_values(|v: Option<u32>| shifted(v, offset)),
    {
        proof { use_type_invariant(&*self); }
        let ghost old_entries = self.entries@;
        let mut entries: Vec<(String, Option<u32>)> = Vec::new();
        std::mem::swap(&mut entries, &mut self.entries);
        let n = entries.len();
        let mut shifted_entries: Vec<(String, Option<u32>)> = Vec::new();
        let mut i: usize = 0;
        while i < n
            invariant
                n == entries@.len(),
                entries@ == old_entries,
                keys_distinct(old_entries),
                all_addressed(entries_map(old_entries)),
                i <= n,
                shifted_entries@.len() == i,
                forall|j: int| 0 <= j < i ==> (#[trigger] shifted_entries@[j]).0@ == old_entries[j].0@
                    && shifted_entries@[j].1 == shifted(old_entries[j].1, offset),
            decreases n - i,
        {
            proof { lemma_entry_in_map(old_entries, i as int); }
            let value = match entries[i].1 {
                Some(a) => if a < offset { None } else { Some(a - offset) },
                None => None,
            };
            shifted_entries.push((entries[i].0.clone(), value));
            i = i + 1;
        }
        proof {
            let e = shifted_entries@;
            let m = entries_map(old_entries).map_values(|v: Option<u32>| shifted(v, offset));
            assert(keys_distinct(e)) by {
                assert forall|a: int, b: int|
                    0 <= a < e.len() && 0 <= b < e.len() && a != b implies (#[trigger] e[a]).0@ != (#[trigger] e[b]).0@ by {
                    assert(e[a].0@ == old_entries[a].0@);
                    assert(e[b].0@ == old_entries[b].0@);
                }
            }
            assert forall|q: Seq<char>| #[trigger] has_key(e, q) == has_key(old_entries, q) by {
                if has_key(e, q) {
                    let j = choose|j: int| 0 <= j < e.len() && (#[trigger] e[j]).0@ == q;
                    assert(old_entries[j].0@ == q);
                }
                if has_key(old_entries, q) {
                    let j = choose|j: int| 0 <= j < old_entries.len() && (#[trigger] old_entries[j]).0@ == q;
                    assert(e[j].0@ == q);
                }
            }
            assert forall|q: Seq<char>| has_key(e, q) implies entries_map(e)[q] == m[q] by {
                let j = choose|j: int| 0 <= j < e.len() && (#[trigger] e[j]).0@ == q;
                lemma_entry_in_map(e, j);
                assert(old_entries[j].0@ == q);
                lemma_entry_in_map(old_entries, j);
            }
            assert(entries_map(e) =~= m);
        }
        self.entries = shifted_entries;
    }
}

impl Clone for RegisterMap {
    fn clone(&self) -> (res: RegisterMap)
        ensures
            res.view() == self.view(),
    {
        proof { use_type_invariant(self); }
        let n = self.entries.len();
        let mut entries: Vec<(String, Option<u32>)> = Vec::new();
        let mut i: usize = 0;
        while i < n
            invariant
                n == self.entries@.len(),
                i <= n,
                entries@ =~= self.entries@.take(i as int),
            decreases n - i,
        {
            entries.push((self.entries[i].0.clone(), self.entries[i].1));
            assert(self.entries@.take(i + 1) =~= self.entries@.take(i as int).push(self.entries@[i as int]));
            i = i + 1;
        }
        assert(self.entries@.take(n as int) =~= self.entries@);
        RegisterMap { entries }
    }
}

/// What a register map gives back for a name after a store: the stored
/// address for the stored name, and what it held before for any other.
pub proof fn law_store_then_read(m: Map<Seq<char>, Option<u32>>, key: Seq<char>, value: Option<u32>, q: Seq<char>)
    ensures
        m.insert(key, value).dom().contains(q) == (q == key || m.dom().contains(q)),
        q == key ==> m.insert(key, value)[q] == value,
        q != key ==> m.insert(key, value)[q] == m[q],
{
}

/// The records of a CSV text as the `csv` crate reads them with a flexible
/// reader that takes the first record for headers: each record's fields in
/// order, or nothing for a record that the reader reported an error for. It
/// depends on the text alone.
pub uninterp spec fn csv_records(data: Seq<u8>) -> Seq<Option<Seq<Seq<char>>>>;

/// `csv::ReaderBuilder` with `flexible(true)` and its default header row,
/// reading `data`: trusted to return `csv_records` of the bytes, each record
/// converted to its fields' texts and each record error to `None`.
#[verifier::external_body]
fn read_csv_records(data: &[u8]) -> (res: Vec<Option<Vec<String>>>)
    ensures
        res.deep_view() == csv_records(data@),
{
    let mut reader = csv::ReaderBuilder::new().flexible(true).from_reader(data);
    reader.records().map(|r| r.ok().map(|rec| rec.iter().map(String::from).collect())).collect()
}

/// Reads the rows of a `csr.csv` file from its bytes.
pub fn read_csr_rows(data: &[u8]) -> (rows: Vec<Option<Vec<String>>>)
    ensures
        rows.deep_view() == csv_records(data@),
{
    read_csv_records(data)
}

/// Where reading a register file stands after some of its rows: names read
/// so far, the error that stopped it, or a row that the tool does not survive
/// (one too short for its kind, or a register run whose addresses pass
/// `u32::MAX`).
pub enum RowsState {
    Ready(Map<Seq<char>, Option<u32>>),
    Failed(ErrorView),
    Malformed,
}

/// A 32-bit number with an optional radix prefix.
pub open spec fn number(p: Seq<char>) -> Option<nat> {
    spec_parse_number(p, u32::MAX as nat)
}

/// The names `name` + the index, counted down from `n - 1`, for the registers
/// `l` to `n - 1` of a run at `base`, four bytes apart: register `l` is
/// numbered `n - l - 1`.
pub open spec fn insert_numbered(
    m: Map<Seq<char>, Option<u32>>,
    name: Seq<char>,
    base: nat,
    n: nat,
    l: nat,
) -> Map<Seq<char>, Option<u32>>
    decreases n - l,
{
    if l < n {
        insert_numbered(
            m.insert(name + decimal((n - l - 1) as nat), Some((base + 4 * l) as u32)),
            name,
            base,
            n,
            l + 1,
        )
    } else {
        m
    }
}

/// A `csr_register` row: its name maps to its base; a register of several
/// words also gets a numbered name for each word.
pub open spec fn register_row(m: Map<Seq<char>, Option<u32>>, r: Seq<Seq<char>>) -> RowsState {
    if r.len() < 3 {
        RowsState::Malformed
    } else {
        match number(r[2]) {
            None => RowsState::Failed(number_error(r[2], u32::MAX as nat)),
            Some(base) => if r.len() < 4 {
                RowsState::Malformed
            } else {
                match number(r[3]) {
                    None => RowsState::Failed(number_error(r[3], u32::MAX as nat)),
                    Some(n) => {
                        let name = lowercase(r[1]);
                        let m1 = m.insert(name, Some(base as u32));
                        if n == 1 {
                            RowsState::Ready(m1)
                        } else if n >= 2 && base + 4 * (n - 1) > u32::MAX {
                            RowsState::Malformed
                        } else {
                            RowsState::Ready(insert_numbered(m1, name, base, n, 0))
                        }
                    },
                }
            },
        }
    }
}

/// A `memory_region` row: its name maps to its base.
pub open spec fn region_row(m: Map<Seq<char>, Option<u32>>, r: Seq<Seq<char>>) -> RowsState {
    if r.len() < 3 {
        RowsState::Malformed
    } else {
        match number(r[2]) {
            None => RowsState::Failed(number_error(r[2], u32::MAX as nat)),
            Some(base) => RowsState::Ready(m.insert(lowercase(r[1]), Some(base as u32))),
        }
    }
}

/// One row read into the names so far: rows the reader reported an error
/// for, and rows of other kinds, leave them as they are.
pub open spec fn row_step(st: RowsState, row: Option<Seq<Seq<char>>>) -> RowsState {
    match st {
        RowsState::Ready(m) => match row {
            None => RowsState::Ready(m),
            Some(r) => if r.len() == 0 {
                RowsState::Malformed
            } else if r[0] == "csr_register"@ {
                register_row(m, r)
            } else if r[0] == "memory_region"@ {
                region_row(m, r)
            } else {
                RowsState::Ready(m)
            },
        },
        _ => st,
    }
}

/// All rows read in order, from no names.
pub open spec fn rows_fold(rows: Seq<Option<Seq<Seq<char>>>>) -> RowsState
    decreases rows.len(),
{
    if rows.len() == 0 {
        RowsState::Ready(Map::empty())
    } else {
        row_step(rows_fold(rows.drop_last()), rows.last())
    }
}

/// Once reading has stopped, later rows change nothing.
proof fn lemma_fold_stops(rows: Seq<Option<Seq<Seq<char>>>>, i: int)
    requires
        0 <= i <= rows.len(),
        !(rows_fold(rows.take(i)) is Ready),
    ensures
        rows_fold(rows) == rows_fold(rows.take(i)),
    decreases rows.len() - i,
{
    if i < rows.len() {
        assert(rows.take(i + 1).drop_last() =~= rows.take(i));
        lemma_fold_stops(rows, i + 1);
    } else {
        assert(rows.take(i) =~= rows);
    }
}

/// Reads one row into `map`: `None` where the row is one the tool does not survive.
fn read_row(map: &mut RegisterMap, row: &Vec<String>) -> (res: Option<Result<(), ConfigError>>)
    ensures
        match row_step(RowsState::Ready(old(map).view()), Some(row.deep_view())) {
            RowsState::Ready(m) => res == Some(Ok::<(), ConfigError>(())) && final(map).view() == m,
            RowsState::Failed(e) => res matches Some(Err(x)) && x@ == e,
            RowsState::Malformed => res is None,
        },
{
    let ghost r = row.deep_view();
    if row.len() == 0 {
        return None;
    }
    assert(r[0] == row@[0]@);
    if same_text(row[0].as_str(), "csr_register") {
        if row.len() < 3 {
            return None;
        }
        assert(r[1] == row@[1]@ && r[2] == row@[2]@);
        let base = match parse_u32(row[2].as_str()) {
            Ok(b) => b,
            Err(e) => return Some(Err(e)),
        };
        if row.len() < 4 {
            return None;
        }
        assert(r[3] == row@[3]@);
        let n = match parse_u32(row[3].as_str()) {
            Ok(v) => v,
            Err(e) => return Some(Err(e)),
        };
        let reg_name = to_lowercase(row[1].as_str());
        if n == 1 {
            map.insert(reg_name, Some(base));
        } else {
            if n >= 2 && n - 1 > (u32::MAX - base) / 4 {
                assert(base + 4 * (n - 1) > u32::MAX) by (nonlinear_arith)
                    requires n - 1 > (u32::MAX - base) / 4, base <= u32::MAX;
                return None;
            }
            assert(n >= 2 ==> base + 4 * (n - 1) <= u32::MAX) by (nonlinear_arith)
                requires n >= 2 ==> n - 1 <= (u32::MAX - base) / 4, base <= u32::MAX;
            let ghost name = reg_name@;
            map.insert(reg_name.clone(), Some(base));
            let ghost m1 = map.view();
            let mut l: u32 = 0;
            while l < n
                invariant
                    l <= n,
                    n != 1,
                    n >= 2 ==> base + 4 * (n - 1) <= u32::MAX,
                    reg_name@ == name,
                    insert_numbered(map.view(), name, base as nat, n as nat, l as nat)
                        == insert_numbered(m1, name, base as nat, n as nat, 0),
                decreases n - l,
            {
                let mut key = reg_name.clone();
                push_decimal(&mut key, n - l - 1);
                assert(4 * l <= 4 * (n - 1)) by (nonlinear_arith) requires l < n;
                map.insert(key, Some(base + l * 4));
                l = l + 1;
            }
        }
    } else if same_text(row[0].as_str(), "memory_region") {
        if row.len() < 3 {
            return None;
        }
        assert(r[1] == row@[1]@ && r[2] == row@[2]@);
        let base = match parse_u32(row[2].as_str()) {
            Ok(b) => b,
            Err(e) => return Some(Err(e)),
        };
        map.insert(to_lowercase(row[1].as_str()), Some(base));
    }
    Some(Ok(()))
}

/// Reads the names and addresses of all rows, in order: the error of the first
/// row whose number does not parse, or `None` where a row is one the tool does
/// not survive before any such error.
pub fn collect_registers(rows: &Vec<Option<Vec<String>>>) -> (res: Option<Result<RegisterMap, ConfigError>>)
    ensures
        match rows_fold(rows.deep_view()) {
            RowsState::Ready(m) => res matches Some(Ok(map)) && map.view() == m,
            RowsState::Failed(e) => res matches Some(Err(x)) && x@ == e,
            RowsState::Malformed => res is None,
        },
{
    let ghost all = rows.deep_view();
    let mut map = RegisterMap::new();
    let n = rows.len();
    let mut i: usize = 0;
    assert(all.take(0) =~= Seq::<Option<Seq<Seq<char>>>>::empty());
    while i < n
        invariant
            n == rows@.len(),
            all == rows.deep_view(),
            i <= n,
            rows_fold(all.take(i as int)) == RowsState::Ready(map.view()),
        decreases n - i,
    {
        assert(all.take(i + 1).drop_last() =~= all.take(i as int));
        assert(all.take(i + 1).last() == rows@[i as int].deep_view());
        match &rows[i] {
            None => {},
            Some(row) => {
                match read_row(&mut map, row) {
                    None => {
                        proof { lemma_fold_stops(all, i + 1); }
                        return None;
                    },
                    Some(Err(e)) => {
                        proof { lemma_fold_stops(all, i + 1); }
                        return Some(Err(e));
                    },
                    Some(Ok(())) => {},
                }
            },
        }
        i = i + 1;
    }
    assert(all.take(n as int) =~= all);
    Some(Ok(map))
}

/// Numbered registers get addresses like the rest.
proof fn lemma_numbered_addressed(m: Map<Seq<char>, Option<u32>>, name: Seq<char>, base: nat, n: nat, l: nat)
    requires
        all_addressed(m),
    ensures
        all_addressed(insert_numbered(m, name, base, n, l)),
    decreases n - l,
{
    if l < n {
        let m2 = m.insert(name + decimal((n - l - 1) as nat), Some((base + 4 * l) as u32));
        assert(all_addressed(m2));
        lemma_numbered_addressed(m2, name, base, n, l + 1);
    }
}

/// Every name read from a register file has an address: addresses only go
/// missing once a register window is applied.
pub proof fn law_rows_give_addresses(rows: Seq<Option<Seq<Seq<char>>>>)
    ensures
        rows_fold(rows) matches RowsState::Ready(m) ==> all_addressed(m),
    decreases rows.len(),
{
    if rows.len() > 0 {
        law_rows_give_addresses(rows.drop_last());
        if let RowsState::Ready(m) = rows_fold(rows.drop_last()) {
            if let Some(r) = rows.last() {
                if r.len() >= 4 && r[0] == "csr_register"@ {
                    if let (Some(base), Some(n)) = (number(r[2]), number(r[3])) {
                        let m1 = m.insert(lowercase(r[1]), Some(base as u32));
                        assert(all_addressed(m1));
                        lemma_numbered_addressed(m1, lowercase(r[1]), base, n, 0);
                    }
                }
            }
        }
    }
}

/// Reading rows fails only for a number that does not parse.
pub proof fn lemma_fold_errors(rows: Seq<Option<Seq<Seq<char>>>>)
    ensures
        rows_fold(rows) matches RowsState::Failed(e) ==> e is NumberParse,
    decreases rows.len(),
{
    if rows.len() > 0 {
        lemma_fold_errors(rows.drop_last());
    }
}

/// The result of reading a register file and making it relative to a register
/// window, or the reason it was refused.
pub enum CsrOutcome {
    Loaded(Map<Seq<char>, Option<u32>>, u32),
    Refused(ErrorView),
    Malformed,
}

/// The register window's start given by `offset`: the address of a name
/// in `m` when it is one, else a number with an optional radix prefix.
pub open spec fn window_start(m: Map<Seq<char>, Option<u32>>, o: Seq<char>) -> Option<u32> {
    if m.dom().contains(o) {
        m[o]
    } else {
        match number(o) {
            Some(off) => Some(off as u32),
            None => None,
        }
    }
}

/// Names read from a file, made relative to the window that `offset_str`
/// gives, if it gives one.
pub open spec fn windowed(m: Map<Seq<char>, Option<u32>>, offset_str: Option<Seq<char>>) -> CsrOutcome {
    match offset_str {
        None => CsrOutcome::Loaded(m, 0),
        Some(o) => match window_start(m, o) {
            Some(off) => CsrOutcome::Loaded(m.map_values(|v: Option<u32>| shifted(v, off)), off),
            None => CsrOutcome::Refused(number_error(o, u32::MAX as nat)),
        },
    }
}

/// What reading the register file `rows` (absent, unreadable, or read into
/// rows) with the window `offset_str` yields.
pub open spec fn spec_csr_csv(
    rows: Option<Result<Seq<Option<Seq<Seq<char>>>>, std::io::Error>>,
    offset_str: Option<Seq<char>>,
) -> CsrOutcome {
    match rows {
        None => match offset_str {
            None => CsrOutcome::Loaded(Map::empty(), 0),
            Some(o) => match number(o) {
                Some(off) => CsrOutcome::Loaded(Map::empty(), off as u32),
                None => CsrOutcome::Refused(number_error(o, u32::MAX as nat)),
            },
        },
        Some(Err(e)) => CsrOutcome::Refused(ErrorView::Io(e)),
        Some(Ok(r)) => match rows_fold(r) {
            RowsState::Ready(m) => windowed(m, offset_str),
            RowsState::Failed(e) => CsrOutcome::Refused(e),
            RowsState::Malformed => CsrOutcome::Malformed,
        },
    }
}

/// A register file as the tool receives it: absent, unreadable, or its rows.
pub open spec fn csv_view(csv: Option<Result<Vec<Option<Vec<String>>>, std::io::Error>>) -> Option<
    Result<Seq<Option<Seq<Seq<char>>>>, std::io::Error>,
> {
    match csv {
        None => None,
        Some(Err(e)) => Some(Err(e)),
        Some(Ok(r)) => Some(Ok(r.deep_view())),
    }
}

/// The text of an optional string slice.
pub open spec fn opt_view(s: Option<&str>) -> Option<Seq<char>> {
    match s {
        Some(x) => Some(x@),
        None => None,
    }
}

/// Whether `res` is the outcome `o`.
pub open spec fn csr_result(res: Result<(RegisterMap, u32), ConfigError>, o: CsrOutcome) -> bool {
    match o {
        CsrOutcome::Loaded(m, off) => res matches Ok((map, x)) && map.view() == m && x == off,
        CsrOutcome::Refused(e) => res matches Err(x) && x@ == e,
        CsrOutcome::Malformed => false,
    }
}

/// Reads a register file and makes it relative to a register window:
/// `None` where a row is one the tool does not survive.
pub fn load_registers(
    csv: Option<Result<Vec<Option<Vec<String>>>, std::io::Error>>,
    offset_str: Option<&str>,
) -> (res: Option<Result<(RegisterMap, u32), ConfigError>>)
    ensures
        match res {
            None => spec_csr_csv(csv_view(csv), opt_view(offset_str)) is Malformed,
            Some(r) => csr_result(r, spec_csr_csv(csv_view(csv), opt_view(offset_str))),
        },
{
    let rows = match csv {
        None => {
            return match offset_str {
                Some(o) => match parse_u32(o) {
                    Ok(off) => Some(Ok((RegisterMap::new(), off))),
                    Err(e) => Some(Err(e)),
                },
                None => Some(Ok((RegisterMap::new(), 0))),
            };
        },
        Some(Err(e)) => return Some(Err(ConfigError::from(e))),
        Some(Ok(rows)) => rows,
    };
    let mut map = match collect_registers(&rows) {
        None => return None,
        Some(Err(e)) => return Some(Err(e)),
        Some(Ok(m)) => m,
    };
    proof { law_rows_give_addresses(rows.deep_view()); }
    let mut offset: u32 = 0;
    if let Some(offset_str) = offset_str {
        offset = match map.get(offset_str) {
            // Every name read from the file has an address.
            Some(v) => v.expect("offset_value was None even though it was in the array"),
            None => match parse_u32(offset_str) {
                Ok(v) => v,
                Err(e) => return Some(Err(e)),
            },
        };
        map.apply_offset(offset);
    }
    Some(Ok((map, offset)))
}

/// Reads a register file and makes it relative to the register window that
/// `offset_str` names (a register or region of the file, or a number): every
/// address below the window becomes `None`, every other one is made relative
/// to it. Without a file only the window's number is read.
pub fn parse_csr_csv(
    csv: Option<Result<Vec<Option<Vec<String>>>, std::io::Error>>,
    offset_str: Option<&str>,
) -> (res: Result<(RegisterMap, u32), ConfigError>)
    requires
        !(spec_csr_csv(csv_view(csv), opt_view(offset_str)) is Malformed),
    ensures
        csr_result(res, spec_csr_csv(csv_view(csv), opt_view(offset_str))),
{
    load_registers(csv, offset_str).unwrap()
}

/// Numbered names differ from each other and from the bare name.
proof fn lemma_numbered_names_distinct(name: Seq<char>, a: nat, b: nat)
    ensures
        name + decimal(a) != name,
        a != b ==> name + decimal(a) != name + decimal(b),
{
    lemma_decimal_value(a);
    lemma_decimal_value(b);
    assert((name + decimal(a)).len() > name.len());
    if a != b && name + decimal(a) == name + decimal(b) {
        assert(decimal(a) =~= (name + decimal(a)).skip(name.len() as int));
        assert(decimal(b) =~= (name + decimal(b)).skip(name.len() as int));
    }
}

/// The registers `l` to `n - 1` of a run get their numbered names; other
/// names keep what they had.
#[verifier::spinoff_prover]
proof fn lemma_insert_numbered(m: Map<Seq<char>, Option<u32>>, name: Seq<char>, base: nat, n: nat, l: nat)
    requires
        l <= n,
    ensures
        forall|k: nat| k < n - l ==> {
            &&& #[trigger] insert_numbered(m, name, base, n, l).dom().contains(name + decimal(k))
            &&& insert_numbered(m, name, base, n, l)[name + decimal(k)] == Some((base + 4 * (n - 1 - k)) as u32)
        },
        forall|q: Seq<char>|
            (forall|k: nat| k < n - l ==> q != #[trigger] (name + decimal(k))) ==> {
                &&& (#[trigger] insert_numbered(m, name, base, n, l).dom().contains(q)) == m.dom().contains(q)
                &&& insert_numbered(m, name, base, n, l)[q] == m[q]
            },
    decreases n - l,
{
    if l < n {
        let key = name + decimal((n - l - 1) as nat);
        let m2 = m.insert(key, Some((base + 4 * l) as u32));
        lemma_insert_numbered(m2, name, base, n, l + 1);
        let r = insert_numbered(m, name, base, n, l);
        assert(r == insert_numbered(m2, name, base, n, l + 1));
        assert forall|k: nat| k < n - l implies #[trigger] r.dom().contains(name + decimal(k))
            && r[name + decimal(k)] == Some((base + 4 * (n - 1 - k)) as u32) by {
            if k < n - (l + 1) {
            } else {
                assert(k == n - l - 1);
                assert forall|j: nat| j < n - (l + 1) implies name + decimal(k) != #[trigger] (name + decimal(j)) by {
                    lemma_numbered_names_distinct(name, k, j);
                }
            }
        }
        assert forall|q: Seq<char>| (forall|k: nat| k < n - l ==> q != #[trigger] (name + decimal(k))) implies
            (#[trigger] r.dom().contains(q)) == m.dom().contains(q) && r[q] == m[q] by {
            assert(q != name + decimal((n - l - 1) as nat));
            assert forall|k: nat| k < n - (l + 1) implies q != #[trigger] (name + decimal(k)) by {
                assert(k < n - l);
            }
        }
    }
}

/// A register that spans several words (`n` of them, from `base`) is named
/// for its base and, in reverse, for each word: word `k` of the name is at
/// `base + 4 * (n - 1 - k)`.
#[verifier::spinoff_prover]
pub proof fn law_register_words(m: Map<Seq<char>, Option<u32>>, r: Seq<Seq<char>>)
    requires
        r.len() >= 4,
        number(r[2]) is Some,
        number(r[3]) is Some,
        number(r[3])->0 >= 2,
        number(r[2])->0 + 4 * (number(r[3])->0 - 1) <= u32::MAX,
    ensures
        ({
            let name = lowercase(r[1]);
            let base = number(r[2])->0;
            let n = number(r[3])->0;
            register_row(m, r) matches RowsState::Ready(m2) && {
                &&& m2.dom().contains(name)
                &&& m2[name] == Some(base as u32)
                &&& forall|k: nat| k < n ==> {
                    &&& #[trigger] m2.dom().contains(name + decimal(k))
                    &&& m2[name + decimal(k)] == Some((base + 4 * (n - 1 - k)) as u32)
                }
            }
        }),
{
    let name = lowercase(r[1]);
    let base = number(r[2])->0;
    let n = number(r[3])->0;
    let m1 = m.insert(name, Some(base as u32));
    let m2 = insert_numbered(m1, name, base, n, 0);
    assert(register_row(m, r) == RowsState::Ready(m2));
    lemma_insert_numbered(m1, name, base, n, 0);
    assert forall|k: nat| k < n implies name != #[trigger] (name + decimal(k)) by {
        lemma_numbered_names_distinct(name, k, k);
    }
    assert(m2.dom().contains(name) == m1.dom().contains(name));
    assert(m2[name] == m1[name]);
    assert forall|k: nat| k < n implies #[trigger] m2.dom().contains(name + decimal(k))
        && m2[name + decimal(k)] == Some((base + 4 * (n - 1 - k)) as u32) by {
        assert(k < n - 0);
    }
}

/// Reading a register file with a window gives the file as read without one,
/// offset by the window's start.
pub proof fn law_window_is_offsetting(
    rows: Option<Result<Seq<Option<Seq<Seq<char>>>>, std::io::Error>>,
    o: Seq<char>,
)
    ensures
        spec_csr_csv(rows, None) matches CsrOutcome::Loaded(m, base) ==> {
            &&& base == 0
            &&& (window_start(m, o) matches Some(off) ==> spec_csr_csv(rows, Some(o)) == CsrOutcome::Loaded(
                m.map_values(|v: Option<u32>| shifted(v, off)),
                off,
            ))
        },
{
    if rows is None {
        let e = Map::<Seq<char>, Option<u32>>::empty();
        assert(e.map_values(|v: Option<u32>| shifted(v, 0)) =~= e);
        if let Some(n) = number(o) {
            assert(e.map_values(|v: Option<u32>| shifted(v, n as u32)) =~= e);
        }
    }
}

/// Naming a register or region of the file as the window makes addresses
/// relative to it: that name itself then sits at address 0, and the window
/// starts at its address.
pub proof fn law_window_at_named_register(m: Map<Seq<char>, Option<u32>>, o: Seq<char>)
    requires
        m.dom().contains(o),
        m[o] is Some,
    ensures
        windowed(m, Some(o)) matches CsrOutcome::Loaded(m2, off) && off == m[o]->0 && m2[o] == Some(0u32),
{
}

} // verus!
