//! The registry's table: one record for each identifier, keyed by the
//! identifier's lower-case form.
//!
//! A record is created once, with a nonce that never changes afterwards.
//! Only a caller that shows this nonce can change the record's address. A
//! record that was not written for a year is no longer found by a lookup,
//! but stays in the table.

use crate::identifier::{is_alnum, key_of, normalize_id};
use crate::text::{all_ascii, ascii_string, same_text};
use std::time::{Duration, SystemTime, SystemTimeError, UNIX_EPOCH};
use rand::Rng;
use vstd::prelude::*;

verus! {

/// A record is found by a lookup while it is younger than this many seconds.
pub const FRESHNESS_WINDOW_SECS: i64 = 31_536_000;

/// Number of characters of a nonce.
pub const NONCE_LEN: usize = 32;

/// One row of the table as it is stored.
#[derive(Clone, Debug)]
pub struct Registration {
    pub id: String,
    pub address: String,
    pub nonce: String,
    pub updated_at: i64,
}

/// What the table holds for one identifier.
pub struct Record {
    pub address: Seq<char>,
    pub nonce: Seq<char>,
    pub updated_at: i64,
}

/// The registry could not do its work.
#[derive(Clone, Copy, Debug, PartialEq, Eq, Structural)]
pub enum RegistryError {
    /// The system clock does not give a time that can be stored.
    Clock,
}

/// A nonce: 32 ASCII letters and digits.
pub open spec fn is_nonce(text: Seq<char>) -> bool {
    text.len() == 32 && forall|i: int| 0 <= i < text.len() ==> is_alnum(#[trigger] text[i])
}

/// A record last written at `updated_at` is fresh at `now`.
pub open spec fn is_fresh(updated_at: i64, now: i64) -> bool {
    now - updated_at < FRESHNESS_WINDOW_SECS
}

/// The table after a registration of `id`: unchanged where the identifier
/// is taken, else with a new record.
pub open spec fn register_in(
    table: Map<Seq<char>, Record>,
    id: Seq<char>,
    address: Seq<char>,
    nonce: Seq<char>,
    now: i64,
) -> Map<Seq<char>, Record> {
    if table.contains_key(key_of(id)) {
        table
    } else {
        table.insert(key_of(id), Record { address, nonce, updated_at: now })
    }
}

/// The caller shows the nonce that was issued for `id`.
pub open spec fn authorised(table: Map<Seq<char>, Record>, id: Seq<char>, nonce: Seq<char>) -> bool {
    table.contains_key(key_of(id)) && table[key_of(id)].nonce == nonce
}

/// An update of `id` writes its record: the caller is authorised and the
/// address is a new one.
pub open spec fn writes(
    table: Map<Seq<char>, Record>,
    id: Seq<char>,
    address: Seq<char>,
    nonce: Seq<char>,
) -> bool {
    authorised(table, id, nonce) && table[key_of(id)].address != address
}

/// The table after an update of `id`: written only where the caller is
/// authorised and the address is a new one.
pub open spec fn update_in(
    table: Map<Seq<char>, Record>,
    id: Seq<char>,
    address: Seq<char>,
    nonce: Seq<char>,
    now: i64,
) -> Map<Seq<char>, Record> {
    if writes(table, id, address, nonce) {
        table.insert(key_of(id), Record { address, nonce, updated_at: now })
    } else {
        table
    }
}

/// The address found for `id` at `now`: that of its record, if there is one
/// and it is fresh.
pub open spec fn lookup(table: Map<Seq<char>, Record>, id: Seq<char>, now: i64) -> Option<
    Seq<char>,
> {
    if table.contains_key(key_of(id)) && is_fresh(table[key_of(id)].updated_at, now) {
        Some(table[key_of(id)].address)
    } else {
        None
    }
}

/// `std::time::SystemTime`, carried through as it is.
#[verifier::external_type_specification]
#[verifier::external_body]
pub struct ExSystemTime(SystemTime);

/// `std::time::SystemTimeError`, of which only its being there is used.
#[verifier::external_type_specification]
#[verifier::external_body]
pub struct ExSystemTimeError(SystemTimeError);

/// `SystemTime::now`: the system clock's reading, of which nothing is known.
#[verifier::external_body]
fn system_time_now() -> SystemTime {
    SystemTime::now()
}

/// `SystemTime::duration_since`, asked for the time since the Unix epoch:
/// an error where the clock stands before it.
#[verifier::external_body]
fn since_unix_epoch(time: &SystemTime) -> Result<Duration, SystemTimeError> {
    time.duration_since(UNIX_EPOCH)
}

/// `Duration::as_secs`: the whole seconds of a duration.
#[verifier::external_body]
fn whole_seconds(duration: &Duration) -> u64 {
    duration.as_secs()
}

/// `Rng::sample` of `rand::distributions::Alphanumeric` on the thread's
/// generator: one of the bytes `a-z`, `A-Z`, `0-9`, whichever.
#[verifier::external_body]
fn random_alphanumeric() -> (byte: u8)
    ensures
        byte < 128,
        is_alnum(byte as char),
{
    rand::thread_rng().sample(rand::distributions::Alphanumeric)
}

/// The time to store for a reading of the clock: `elapsed` are the whole
/// seconds since the Unix epoch, or nothing where the clock stands before
/// it. A reading that cannot be stored as a signed 64-bit number is an error
/// like a missing one.
pub fn seconds_since_epoch(elapsed: Option<u64>) -> (out: Result<i64, RegistryError>)
    ensures
        out == match elapsed {
            Some(seconds) => if seconds <= i64::MAX {
                Ok::<i64, RegistryError>(seconds as i64)
            } else {
                Err::<i64, RegistryError>(RegistryError::Clock)
            },
            None => Err::<i64, RegistryError>(RegistryError::Clock),
        },
{
    match elapsed {
        Some(seconds) => if seconds > 0x7fff_ffff_ffff_ffff {
            Err(RegistryError::Clock)
        } else {
            Ok(seconds as i64)
        },
        None => Err(RegistryError::Clock),
    }
}

/// The system clock's time in seconds since the Unix epoch, as
/// `seconds_since_epoch` gives it for the clock's reading. A clock that
/// stands before the epoch, or too far behind it for the number to be
/// stored, is an error.
pub fn unix_now() -> (out: Result<i64, RegistryError>)
    ensures
        out matches Ok(seconds) ==> seconds >= 0,
{
    let time = system_time_now();
    let elapsed: Option<u64> = match since_unix_epoch(&time) {
        Ok(duration) => Some(whole_seconds(&duration)),
        Err(_) => None,
    };
    seconds_since_epoch(elapsed)
}

/// A new nonce: 32 random ASCII letters and digits.
pub fn generate_nonce() -> (nonce: String)
    ensures
        is_nonce(nonce@),
{
    let mut bytes: Vec<u8> = Vec::new();
    while bytes.len() < NONCE_LEN
        invariant
            bytes@.len() <= NONCE_LEN,
            forall|i: int| 0 <= i < bytes@.len() ==> #[trigger] bytes@[i] < 128 && is_alnum(bytes@[i] as char),
        decreases NONCE_LEN - bytes@.len(),
    {
        bytes.push(random_alphanumeric());
    }
    assert(all_ascii(bytes@));
    ascii_string(bytes)
}

/// Whether a record written at `updated_at` is fresh at `now`.
pub fn fresh(updated_at: i64, now: i64) -> (yes: bool)
    ensures
        yes == is_fresh(updated_at, now),
{
    (now as i128) - (updated_at as i128) < (FRESHNESS_WINDOW_SECS as i128)
}

/// What the table holds for a row.
pub open spec fn record_of(row: Registration) -> Record {
    Record { address: row.address@, nonce: row.nonce@, updated_at: row.updated_at }
}

/// The table that a list of rows stands for; a later row replaces an
/// earlier one with the same identifier.
pub open spec fn table_of(rows: Seq<Registration>) -> Map<Seq<char>, Record>
    decreases rows.len(),
{
    if rows.len() == 0 {
        Map::empty()
    } else {
        table_of(rows.drop_last()).insert(rows.last().id@, record_of(rows.last()))
    }
}

/// No identifier stands in two rows.
pub open spec fn distinct_ids(rows: Seq<Registration>) -> bool {
    forall|i: int, j: int| 0 <= i < j < rows.len() ==> (#[trigger] rows[i]).id@ != (#[trigger] rows[j]).id@
}

/// The table holds exactly the identifiers of the rows.
pub proof fn lemma_table_keys(rows: Seq<Registration>, key: Seq<char>)
    ensures
        table_of(rows).contains_key(key) <==> exists|i: int|
            0 <= i < rows.len() && (#[trigger] rows[i]).id@ == key,
    decreases rows.len(),
{
    if rows.len() > 0 {
        let front = rows.drop_last();
        lemma_table_keys(front, key);
        if table_of(rows).contains_key(key) {
            if rows.last().id@ == key {
                assert(rows[rows.len() - 1].id@ == key);
            } else {
                let i = choose|i: int| 0 <= i < front.len() && (#[trigger] front[i]).id@ == key;
                assert(rows[i].id@ == key);
            }
        }
        if exists|i: int| 0 <= i < rows.len() && (#[trigger] rows[i]).id@ == key {
            let i = choose|i: int| 0 <= i < rows.len() && (#[trigger] rows[i]).id@ == key;
            if i < rows.len() - 1 {
                assert(front[i].id@ == key);
            }
        }
    }
}

/// With distinct identifiers, the table holds for each row what the row says.
pub proof fn lemma_table_row(rows: Seq<Registration>, i: int)
    requires
        distinct_ids(rows),
        0 <= i < rows.len(),
    ensures
        table_of(rows).contains_key(rows[i].id@),
        table_of(rows)[rows[i].id@] == record_of(rows[i]),
    decreases rows.len(),
{
    let front = rows.drop_last();
    if i < rows.len() - 1 {
        assert(distinct_ids(front)) by {
            assert forall|a: int, b: int| 0 <= a < b < front.len() implies (#[trigger] front[a]).id@
                != (#[trigger] front[b]).id@ by {
                assert(rows[a].id@ != rows[b].id@);
            }
        }
        lemma_table_row(front, i);
        assert(front[i] == rows[i]);
        assert(rows[i].id@ != rows[rows.len() - 1].id@);
    }
}

/// Replacing a row by one with the same identifier replaces its record.
pub proof fn lemma_table_replace(rows: Seq<Registration>, i: int, row: Registration)
    requires
        distinct_ids(rows),
        0 <= i < rows.len(),
        row.id@ == rows[i].id@,
    ensures
        distinct_ids(rows.update(i, row)),
        table_of(rows.update(i, row)) == table_of(rows).insert(row.id@, record_of(row)),
    decreases rows.len(),
{
    let after = rows.update(i, row);
    assert(distinct_ids(after)) by {
        assert forall|a: int, b: int| 0 <= a < b < after.len() implies (#[trigger] after[a]).id@
            != (#[trigger] after[b]).id@ by {
            assert(rows[a].id@ != rows[b].id@);
        }
    }
    let front = rows.drop_last();
    if i == rows.len() - 1 {
        assert(after.drop_last() =~= front);
        assert(table_of(after) =~= table_of(rows).insert(row.id@, record_of(row)));
    } else {
        assert(distinct_ids(front)) by {
            assert forall|a: int, b: int| 0 <= a < b < front.len() implies (#[trigger] front[a]).id@
                != (#[trigger] front[b]).id@ by {
                assert(rows[a].id@ != rows[b].id@);
            }
        }
        lemma_table_replace(front, i, row);
        assert(after.drop_last() =~= front.update(i, row));
        assert(after.last() == rows.last());
        assert(rows[i].id@ != rows[rows.len() - 1].id@);
        assert(table_of(after) =~= table_of(rows).insert(row.id@, record_of(row)));
    }
}

/// The registry's table.
pub struct Database {
    rows: Vec<Registration>,
}

impl View for Database {
    type V = Map<Seq<char>, Record>;

    closed spec fn view(&self) -> Map<Seq<char>, Record> {
        table_of(self.rows@)
    }
}

impl Database {
    /// No identifier has two records.
    pub closed spec fn wf(&self) -> bool {
        distinct_ids(self.rows@)
    }

    /// The rows of the table, in the order in which they were created.
    pub closed spec fn spec_rows(&self) -> Seq<Registration> {
        self.rows@
    }

    /// Index of the row stored under `key`.
    fn position(&self, key: &String) -> (at: Option<usize>)
        ensures
            match at {
                Some(i) => i < self.rows@.len() && self.rows@[i as int].id@ == key@,
                None => forall|i: int| 0 <= i < self.rows@.len() ==> (#[trigger] self.rows@[i]).id@ != key@,
            },
            at is Some <==> self@.contains_key(key@),
    {
        proof {
            lemma_table_keys(self.rows@, key@);
        }
        let mut i: usize = 0;
        while i < self.rows.len()
            invariant
                i <= self.rows@.len(),
                forall|k: int| 0 <= k < i ==> (#[trigger] self.rows@[k]).id@ != key@,
            decreases self.rows@.len() - i,
        {
            if self.rows[i].id == *key {
                proof {
                    lemma_table_keys(self.rows@, key@);
                }
                return Some(i);
            }
            i += 1;
        }
        None
    }

    /// A table with no record.
    pub fn new() -> (db: Database)
        ensures
            db.wf(),
            db@ == Map::<Seq<char>, Record>::empty(),
    {
        Database { rows: Vec::new() }
    }

    /// The table that holds `rows`, as read back from where they were kept.
    /// Refused where two rows have the same identifier.
    pub fn open(rows: Vec<Registration>) -> (out: Option<Database>)
        ensures
            out is Some <==> distinct_ids(rows@),
            out matches Some(db) ==> db.wf() && db@ == table_of(rows@) && db.spec_rows() == rows@,
    {
        let mut j: usize = 0;
        while j < rows.len()
            invariant
                j <= rows@.len(),
                forall|a: int, b: int| 0 <= a < b < j ==> (#[trigger] rows@[a]).id@ != (#[trigger] rows@[b]).id@,
            decreases rows@.len() - j,
        {
            let mut i: usize = 0;
            while i < j
                invariant
                    i <= j,
                    j < rows@.len(),
                    forall|a: int| 0 <= a < i ==> (#[trigger] rows@[a]).id@ != rows@[j as int].id@,
                decreases j - i,
            {
                if rows[i].id == rows[j].id {
                    return None;
                }
                i += 1;
            }
            j += 1;
        }
        Some(Database { rows })
    }

    /// A copy of every row, for keeping them somewhere.
    pub fn rows(&self) -> (rows: Vec<Registration>)
        ensures
            rows@ == self.spec_rows(),
    {
        let mut out: Vec<Registration> = Vec::new();
        let mut i: usize = 0;
        while i < self.rows.len()
            invariant
                i <= self.rows@.len(),
                out@ == self.rows@.subrange(0, i as int),
            decreases self.rows@.len() - i,
        {
            let row = &self.rows[i];
            out.push(
                Registration {
                    id: row.id.clone(),
                    address: row.address.clone(),
                    nonce: row.nonce.clone(),
                    updated_at: row.updated_at,
                },
            );
            assert(out@ =~= self.rows@.subrange(0, i + 1));
            i += 1;
        }
        assert(self.rows@.subrange(0, i as int) =~= self.rows@);
        out
    }

    /// The row stored for `id`, if there is one.
    pub fn record(&self, id: &str) -> (row: Option<Registration>)
        requires
            self.wf(),
        ensures
            row is Some <==> self@.contains_key(key_of(id@)),
            row matches Some(r) ==> r.id@ == key_of(id@) && record_of(r) == self@[key_of(id@)],
    {
        let key = normalize_id(id);
        match self.position(&key) {
            Some(i) => {
                proof {
                    lemma_table_row(self.rows@, i as int);
                }
                let row = &self.rows[i];
                Some(
                    Registration {
                        id: row.id.clone(),
                        address: row.address.clone(),
                        nonce: row.nonce.clone(),
                        updated_at: row.updated_at,
                    },
                )
            },
            None => None,
        }
    }

    /// Registers `id` with `address` and `nonce` at time `now`. Where the
    /// identifier is taken nothing changes and `(false, "")` comes back; else
    /// the record is created and `(true, nonce)` comes back.
    pub fn register_with(&mut self, id: &str, address: &str, nonce: String, now: i64) -> (out: (
        bool,
        String,
    ))
        requires
            old(self).wf(),
        ensures
            final(self).wf(),
            final(self)@ == register_in(old(self)@, id@, address@, nonce@, now),
            out.0 == !old(self)@.contains_key(key_of(id@)),
            out.1@ == if out.0 {
                nonce@
            } else {
                Seq::<char>::empty()
            },
    {
        let key = normalize_id(id);
        match self.position(&key) {
            Some(_) => (false, String::new()),
            None => {
                let issued = nonce.clone();
                let row = Registration { id: key, address: address.to_owned(), nonce, updated_at: now };
                let ghost before = self.rows@;
                self.rows.push(row);
                proof {
                    assert(self.rows@.drop_last() =~= before);
                }
                (true, issued)
            },
        }
    }

    /// Whether there is a record for `id`.
    pub fn contains(&self, id: &str) -> (yes: bool)
        requires
            self.wf(),
        ensures
            yes == self@.contains_key(key_of(id@)),
    {
        let key = normalize_id(id);
        self.position(&key).is_some()
    }

    /// Whether `nonce` is the nonce that was issued for `id`.
    pub fn is_authorised(&self, id: &str, nonce: &str) -> (yes: bool)
        requires
            self.wf(),
        ensures
            yes == authorised(self@, id@, nonce@),
    {
        let key = normalize_id(id);
        match self.position(&key) {
            None => false,
            Some(i) => {
                proof {
                    lemma_table_row(self.rows@, i as int);
                }
                same_text(self.rows[i].nonce.as_str(), nonce)
            },
        }
    }

    /// Registers `id` with `address` now, under a fresh nonce. Where the
    /// identifier is taken, `(false, "")` comes back and nothing changes;
    /// the clock is not asked then. Else the record is created with the
    /// clock's time and `(true, nonce)` comes back, unless the clock gives no
    /// time that can be stored: that is the one error, and nothing changes.
    pub fn register(&mut self, id: &str, address: &str) -> (out: Result<(bool, String), RegistryError>)
        requires
            old(self).wf(),
        ensures
            final(self).wf(),
            match out {
                Ok((created, nonce)) => {
                    &&& created == !old(self)@.contains_key(key_of(id@))
                    &&& created ==> is_nonce(nonce@)
                    &&& !created ==> nonce@ == Seq::<char>::empty()
                    &&& exists|now: i64|
                        now >= 0 && final(self)@ == #[trigger] register_in(
                            old(self)@,
                            id@,
                            address@,
                            nonce@,
                            now,
                        )
                },
                Err(e) => {
                    &&& e == RegistryError::Clock
                    &&& !old(self)@.contains_key(key_of(id@))
                    &&& final(self)@ == old(self)@
                },
            },
            old(self)@.contains_key(key_of(id@)) ==> final(self).spec_rows() == old(
                self,
            ).spec_rows(),
    {
        if self.contains(id) {
            let none = String::new();
            assert(self@ == register_in(old(self)@, id@, address@, none@, 0));
            return Ok((false, none));
        }
        let now: i64 = match unix_now() {
            Ok(now) => now,
            Err(e) => {
                return Err(e);
            },
        };
        let nonce = generate_nonce();
        let out = self.register_with(id, address, nonce, now);
        assert(self@ == register_in(old(self)@, id@, address@, out.1@, now));
        Ok(out)
    }

    /// Whether an update with these values would write the record of `id`,
    /// so that whoever keeps the rows has a row to write too.
    pub fn would_write(&self, id: &str, address: &str, nonce: &str) -> (yes: bool)
        requires
            self.wf(),
        ensures
            yes == writes(self@, id@, address@, nonce@),
    {
        let key = normalize_id(id);
        match self.position(&key) {
            None => false,
            Some(i) => {
                proof {
                    lemma_table_row(self.rows@, i as int);
                }
                let row = &self.rows[i];
                same_text(row.nonce.as_str(), nonce) && !same_text(row.address.as_str(), address)
            },
        }
    }

    /// Refreshes the address of `id` at time `now`. `false` where the
    /// identifier is not registered or the nonce is not the one issued for
    /// it, and nothing changes then. Else `true`; the record is written only
    /// if the address is a new one.
    pub fn update_at(&mut self, id: &str, address: &str, nonce: &str, now: i64) -> (ok: bool)
        requires
            old(self).wf(),
        ensures
            final(self).wf(),
            ok == authorised(old(self)@, id@, nonce@),
            final(self)@ == update_in(old(self)@, id@, address@, nonce@, now),
            !writes(old(self)@, id@, address@, nonce@) ==> final(self).spec_rows() == old(
                self,
            ).spec_rows(),
    {
        let key = normalize_id(id);
        match self.position(&key) {
            None => false,
            Some(i) => {
                proof {
                    lemma_table_row(self.rows@, i as int);
                }
                let row = &self.rows[i];
                if !same_text(row.nonce.as_str(), nonce) {
                    return false;
                }
                if same_text(row.address.as_str(), address) {
                    return true;
                }
                let changed = Registration {
                    id: key,
                    address: address.to_owned(),
                    nonce: row.nonce.clone(),
                    updated_at: now,
                };
                proof {
                    lemma_table_replace(self.rows@, i as int, changed);
                }
                self.rows.set(i, changed);
                true
            },
        }
    }

    /// Refreshes the address of `id` now. Where nothing is to be written,
    /// for a caller that is not authorised or an address that is the one
    /// stored, the answer is given without the clock and nothing changes.
    /// Else the record is written with the clock's time, unless the clock
    /// gives no time that can be stored: that is the one error, and nothing
    /// changes.
    pub fn update(&mut self, id: &str, address: &str, nonce: &str) -> (out: Result<
        bool,
        RegistryError,
    >)
        requires
            old(self).wf(),
        ensures
            final(self).wf(),
            match out {
                Ok(ok) => {
                    &&& ok == authorised(old(self)@, id@, nonce@)
                    &&& exists|now: i64|
                        now >= 0 && final(self)@ == #[trigger] update_in(
                            old(self)@,
                            id@,
                            address@,
                            nonce@,
                            now,
                        )
                },
                Err(e) => {
                    &&& e == RegistryError::Clock
                    &&& writes(old(self)@, id@, address@, nonce@)
                    &&& final(self)@ == old(self)@
                },
            },
            !writes(old(self)@, id@, address@, nonce@) ==> final(self).spec_rows() == old(
                self,
            ).spec_rows(),
    {
        if !self.would_write(id, address, nonce) {
            assert(self@ == update_in(old(self)@, id@, address@, nonce@, 0));
            return Ok(self.is_authorised(id, nonce));
        }
        let now: i64 = match unix_now() {
            Ok(now) => now,
            Err(e) => {
                return Err(e);
            },
        };
        let ok = self.update_at(id, address, nonce, now);
        assert(self@ == update_in(old(self)@, id@, address@, nonce@, now));
        Ok(ok)
    }

    /// The address registered for `id`, if its record is fresh at `now`.
    pub fn get_ipv6_at(&self, id: &str, now: i64) -> (out: Option<String>)
        requires
            self.wf(),
        ensures
            match out {
                Some(address) => lookup(self@, id@, now) == Some(address@),
                None => lookup(self@, id@, now) is None,
            },
    {
        let key = normalize_id(id);
        match self.position(&key) {
            None => None,
            Some(i) => {
                proof {
                    lemma_table_row(self.rows@, i as int);
                }
                let row = &self.rows[i];
                if fresh(row.updated_at, now) {
                    Some(row.address.clone())
                } else {
                    None
                }
            },
        }
    }

    /// The address registered for `id`, if its record is fresh now. Where
    /// there is no record, nothing is found and the clock is not asked. Else
    /// the clock's time decides, unless the clock gives no time that can be
    /// stored: that is the one error.
    pub fn get_ipv6(&self, id: &str) -> (out: Result<Option<String>, RegistryError>)
        requires
            self.wf(),
        ensures
            match out {
                Ok(found) => exists|now: i64|
                    #![trigger lookup(self@, id@, now)]
                    now >= 0 && match found {
                        Some(address) => lookup(self@, id@, now) == Some(address@),
                        None => lookup(self@, id@, now) is None,
                    },
                Err(e) => e == RegistryError::Clock && self@.contains_key(key_of(id@)),
            },
    {
        if !self.contains(id) {
            assert(lookup(self@, id@, 0) is None);
            return Ok(None);
        }
        let now: i64 = match unix_now() {
            Ok(now) => now,
            Err(e) => {
                return Err(e);
            },
        };
        let found = self.get_ipv6_at(id, now);
        assert(match found {
            Some(address) => lookup(self@, id@, now) == Some(address@),
            None => lookup(self@, id@, now) is None,
        });
        Ok(found)
    }
}

} // verus!
