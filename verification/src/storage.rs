//! The storage engine: a key→entry map with lazy millisecond expiry, a
//! dirty-mutation counter, and the dual threshold/period snapshot decision.
//!
//! Time is a plain value here: every operation that needs the clock takes
//! the current time in milliseconds, on a clock the caller chooses (the
//! process supplies elapsed milliseconds since startup).

use vstd::prelude::*;
use vstd::utf8::{
    char_is_scalar, char_u32_cast, decode_utf8, encode_scalar, encode_utf8,
    has_width_1_encoding, valid_utf8,
};

use crate::errors::app_errors::AppError;
use crate::rdb;
use crate::rdb::{Record, RecordV, RdbError};
use crate::strutil::{str_contains_char, str_eq_string};

verus! {

/// Mutations tolerated before a snapshot becomes due.
pub const DEFAULT_CHANGE_THRESHOLD: u32 = 100;

/// Seconds that must elapse between snapshot decisions.
pub const DEFAULT_SNAPSHOT_PERIOD: u32 = 60;

/// One stored entry: its value, the time it was created (milliseconds on
/// the storage clock) and its time to live in milliseconds, 0 meaning no
/// expiry.
#[derive(Debug)]
pub struct Item {
    pub value: String,
    pub created: u64,
    pub expires: usize,
}

/// The mathematical content of an `Item`.
pub ghost struct ItemV {
    pub value: Seq<char>,
    pub created: u64,
    pub expires: usize,
}

impl View for Item {
    type V = ItemV;

    open spec fn view(&self) -> ItemV {
        ItemV { value: self.value@, created: self.created, expires: self.expires }
    }
}

/// An entry is logically expired when it has a positive time to live and
/// more than that many milliseconds have passed since it was created.
pub open spec fn spec_expired(item: ItemV, now_ms: u64) -> bool {
    item.expires > 0 && now_ms - item.created > item.expires
}

/// Snapshot bookkeeping: mutations since the last snapshot, the threshold
/// and period that make one due, and the time of the last snapshot
/// decision (milliseconds on the storage clock).
#[derive(Debug)]
pub struct Snapshot {
    pub change_count: u32,
    pub snapshot_change_threshold: u32,
    pub snapshot_period_secs: u32,
    pub last_snapshot_time: u64,
}

/// The key→entry map, held as a vector of pairs with pairwise-distinct
/// keys, plus snapshot bookkeeping and the path the snapshot file is
/// written to.
#[derive(Debug)]
pub struct Storage {
    pub items: Vec<(String, Item)>,
    pub dump_path: String,
    pub snapshot: Snapshot,
}

/// Pairwise-distinct keys.
pub open spec fn keys_distinct(s: Seq<(String, Item)>) -> bool {
    forall|i: int, j: int|
        0 <= i < j < s.len() ==> (#[trigger] s[i]).0@ != (#[trigger] s[j]).0@
}

/// The map held by a sequence of key/entry pairs; later pairs win.
pub open spec fn map_of(s: Seq<(String, Item)>) -> Map<Seq<char>, ItemV>
    decreases s.len(),
{
    if s.len() == 0 {
        Map::empty()
    } else {
        map_of(s.drop_last()).insert(s.last().0@, s.last().1@)
    }
}

/// A key is in the map exactly when some pair holds it.
pub proof fn lemma_map_of_contains(s: Seq<(String, Item)>, k: Seq<char>)
    ensures
        map_of(s).contains_key(k) <==> exists|i: int| 0 <= i < s.len() && (#[trigger] s[i]).0@ == k,
    decreases s.len(),
{
    if s.len() > 0 {
        lemma_map_of_contains(s.drop_last(), k);
        if s.last().0@ == k {
            assert(s[s.len() - 1].0@ == k);
        } else {
            if exists|i: int| 0 <= i < s.len() && (#[trigger] s[i]).0@ == k {
                let i = choose|i: int| 0 <= i < s.len() && (#[trigger] s[i]).0@ == k;
                assert(s.drop_last()[i] == s[i]);
            }
        }
    }
}

/// With distinct keys, the pair at index `i` gives the map's entry for
/// its key.
pub proof fn lemma_map_of_index(s: Seq<(String, Item)>, i: int)
    requires
        keys_distinct(s),
        0 <= i < s.len(),
    ensures
        map_of(s).contains_key(s[i].0@),
        map_of(s)[s[i].0@] == s[i].1@,
    decreases s.len(),
{
    if i == s.len() - 1 {
    } else {
        assert(s.drop_last()[i] == s[i]);
        lemma_map_of_index(s.drop_last(), i);
        assert(s[i].0@ != s.last().0@);
    }
}

/// Removing the pair at index `i` removes exactly its key from the map.
pub proof fn lemma_map_of_remove(s: Seq<(String, Item)>, i: int)
    requires
        keys_distinct(s),
        0 <= i < s.len(),
    ensures
        keys_distinct(s.remove(i)),
        map_of(s.remove(i)) == map_of(s).remove(s[i].0@),
    decreases s.len(),
{
    lemma_map_of_contains(s.drop_last(), s.last().0@);
    if i == s.len() - 1 {
        assert(s.remove(i) =~= s.drop_last());
        assert(!map_of(s.drop_last()).contains_key(s.last().0@));
        assert(map_of(s.drop_last()) =~= map_of(s).remove(s[i].0@));
    } else {
        assert(s.remove(i).drop_last() =~= s.drop_last().remove(i));
        assert(s.remove(i).last() == s.last());
        lemma_map_of_remove(s.drop_last(), i);
        assert(s[i].0@ != s.last().0@);
        assert(map_of(s.remove(i)) == map_of(s.drop_last().remove(i)).insert(
            s.last().0@,
            s.last().1@,
        ));
        assert(map_of(s.drop_last().remove(i)) == map_of(s.drop_last()).remove(s[i].0@));
        assert(map_of(s.drop_last()).remove(s[i].0@).insert(s.last().0@, s.last().1@)
            =~= map_of(s).remove(s[i].0@));
    }
}

impl Storage {
    /// The keys are pairwise distinct.
    pub open spec fn wf(&self) -> bool {
        keys_distinct(self.items@)
    }

    /// The key→entry map this storage holds.
    pub open spec fn contents(&self) -> Map<Seq<char>, ItemV> {
        map_of(self.items@)
    }

    /// A fresh, empty storage whose snapshot baseline is the given time.
    pub fn new(now_ms: u64) -> (r: Storage)
        ensures
            r.wf(),
            r.contents() == Map::<Seq<char>, ItemV>::empty(),
            r.items@.len() == 0,
            r.dump_path@ == "src/dump/dump.rdb"@,
            r.snapshot.change_count == 0,
            r.snapshot.snapshot_change_threshold == DEFAULT_CHANGE_THRESHOLD,
            r.snapshot.snapshot_period_secs == DEFAULT_SNAPSHOT_PERIOD,
            r.snapshot.last_snapshot_time == now_ms,
    {
        Storage {
            items: Vec::new(),
            dump_path: String::from_str("src/dump/dump.rdb"),
            snapshot: Snapshot {
                change_count: 0,
                snapshot_change_threshold: DEFAULT_CHANGE_THRESHOLD,
                snapshot_period_secs: DEFAULT_SNAPSHOT_PERIOD,
                last_snapshot_time: now_ms,
            },
        }
    }

    /// The index holding `key`, if any.
    fn find_index(&self, key: &str) -> (r: Option<usize>)
        ensures
            r matches Some(i) ==> i < self.items@.len() && self.items@[i as int].0@ == key@,
            r is None ==> forall|i: int|
                0 <= i < self.items@.len() ==> (#[trigger] self.items@[i]).0@ != key@,
    {
        let mut i: usize = 0;
        while i < self.items.len()
            invariant
                i <= self.items@.len(),
                forall|j: int| 0 <= j < i ==> (#[trigger] self.items@[j]).0@ != key@,
            decreases self.items@.len() - i,
        {
            if str_eq_string(&self.items[i].0, key) {
                return Some(i);
            }
            i = i + 1;
        }
        None
    }

    /// Upserts an entry created now, and counts one mutation.
    pub fn set(&mut self, key: String, value: String, expires: usize, now_ms: u64)
        requires
            old(self).wf(),
            old(self).snapshot.change_count < u32::MAX,
        ensures
            final(self).wf(),
            final(self).contents() == old(self).contents().insert(
                key@,
                ItemV { value: value@, created: now_ms, expires },
            ),
            final(self).snapshot.change_count == old(self).snapshot.change_count + 1,
            final(self).snapshot.snapshot_change_threshold == old(
                self,
            ).snapshot.snapshot_change_threshold,
            final(self).snapshot.snapshot_period_secs == old(self).snapshot.snapshot_period_secs,
            final(self).snapshot.last_snapshot_time == old(self).snapshot.last_snapshot_time,
            final(self).dump_path == old(self).dump_path,
    {
        let item = Item { value, created: now_ms, expires };
        self.insert_item(key, item);
        self.snapshot.change_count = self.snapshot.change_count + 1;
    }

    /// Puts an entry in place, overwriting a prior entry with the same
    /// key, without touching the snapshot bookkeeping.
    fn insert_item(&mut self, key: String, item: Item)
        requires
            old(self).wf(),
        ensures
            final(self).wf(),
            final(self).contents() == old(self).contents().insert(key@, item@),
            final(self).snapshot == old(self).snapshot,
            final(self).dump_path == old(self).dump_path,
    {
        match self.find_index(key.as_str()) {
            Some(i) => {
                proof {
                    lemma_map_of_remove(self.items@, i as int);
                    lemma_map_of_contains(self.items@.remove(i as int), key@);
                }
                self.items.remove(i);
            },
            None => {
                proof {
                    lemma_map_of_contains(self.items@, key@);
                }
            },
        }
        let ghost pruned = self.items@;
        self.items.push((key, item));
        proof {
            assert(self.items@.drop_last() =~= pruned);
            assert(forall|j: int|
                0 <= j < pruned.len() ==> (#[trigger] pruned[j]).0@ != self.items@.last().0@);
            assert(keys_distinct(self.items@));
            assert(map_of(self.items@) =~= old(self).contents().insert(
                self.items@.last().0@,
                self.items@.last().1@,
            ));
        }
    }

    /// Looks a key up with lazy expiry: an expired entry reads as absent
    /// but is not removed.
    pub fn get(&self, key: &str, now_ms: u64) -> (r: Option<&Item>)
        requires
            self.wf(),
        ensures
            match r {
                Some(item) => self.contents().contains_key(key@) && item@ == self.contents()[key@]
                    && !spec_expired(item@, now_ms),
                None => !self.contents().contains_key(key@) || spec_expired(
                    self.contents()[key@],
                    now_ms,
                ),
            },
    {
        proof {
            lemma_map_of_contains(self.items@, key@);
        }
        match self.find_index(key) {
            Some(i) => {
                proof {
                    lemma_map_of_index(self.items@, i as int);
                }
                let item = &self.items[i].1;
                let is_expired = item.expires > 0 && now_ms.saturating_sub(item.created)
                    > item.expires as u64;
                if is_expired {
                    None
                } else {
                    Some(item)
                }
            },
            None => None,
        }
    }

    /// Removes every listed key that is present; each removal counts one
    /// mutation. Returns how many keys were removed: a repeated key is
    /// removed, and counted, only the first time.
    pub fn del(&mut self, keys: &Vec<String>) -> (r: u16)
        requires
            old(self).wf(),
            old(self).items@.len() <= u16::MAX,
            old(self).snapshot.change_count + old(self).items@.len() <= u32::MAX,
        ensures
            final(self).wf(),
            final(self).contents() == old(self).contents().remove_keys(
                keys@.map_values(|k: String| k@).to_set(),
            ),
            r == spec_del_count(old(self).contents(), keys@.map_values(|k: String| k@)),
            final(self).snapshot.change_count == old(self).snapshot.change_count + r,
            final(self).snapshot.snapshot_change_threshold == old(
                self,
            ).snapshot.snapshot_change_threshold,
            final(self).snapshot.snapshot_period_secs == old(self).snapshot.snapshot_period_secs,
            final(self).snapshot.last_snapshot_time == old(self).snapshot.last_snapshot_time,
            final(self).dump_path == old(self).dump_path,
    {
        let ghost m0 = old(self).contents();
        let ghost kviews = keys@.map_values(|k: String| k@);
        let mut deleted: u16 = 0;
        let mut i: usize = 0;
        while i < keys.len()
            invariant
                i <= keys@.len(),
                kviews == keys@.map_values(|k: String| k@),
                self.wf(),
                self.items@.len() + deleted <= old(self).items@.len(),
                self.contents() == spec_del_map(m0, kviews.take(i as int)),
                deleted == spec_del_count(m0, kviews.take(i as int)),
                self.snapshot.change_count == old(self).snapshot.change_count + deleted,
                old(self).snapshot.change_count + old(self).items@.len() <= u32::MAX,
                old(self).items@.len() <= u16::MAX,
                self.snapshot.snapshot_change_threshold == old(
                    self,
                ).snapshot.snapshot_change_threshold,
                self.snapshot.snapshot_period_secs == old(self).snapshot.snapshot_period_secs,
                self.snapshot.last_snapshot_time == old(self).snapshot.last_snapshot_time,
                self.dump_path == old(self).dump_path,
            decreases keys@.len() - i,
        {
            proof {
                assert(kviews.take(i + 1).drop_last() =~= kviews.take(i as int));
                lemma_del_map_take(m0, kviews, i as int);
                lemma_map_of_contains(self.items@, keys@[i as int]@);
            }
            match self.find_index(keys[i].as_str()) {
                Some(idx) => {
                    proof {
                        lemma_map_of_remove(self.items@, idx as int);
                    }
                    self.items.remove(idx);
                    deleted = deleted + 1;
                    self.snapshot.change_count = self.snapshot.change_count + 1;
                },
                None => {
                    proof {
                        assert(self.contents() =~= self.contents().remove(kviews[i as int]));
                    }
                },
            }
            i = i + 1;
        }
        proof {
            assert(kviews.take(keys@.len() as int) =~= kviews);
            lemma_del_map_is_remove_keys(m0, kviews);
        }
        deleted
    }

    /// Decides whether a snapshot is due: more mutations than the
    /// threshold, and at least the configured period since the last
    /// snapshot decision. When due, the mutation counter resets and the
    /// baseline advances to now, so the period is measured from the last
    /// positive decision rather than from startup.
    pub fn should_take_snapshot(&mut self, now_ms: u64) -> (r: bool)
        requires
            old(self).wf(),
        ensures
            final(self).wf(),
            r == spec_snapshot_due(old(self).snapshot, now_ms),
            r ==> final(self).snapshot == (Snapshot {
                change_count: 0,
                last_snapshot_time: now_ms,
                ..old(self).snapshot
            }),
            !r ==> final(self).snapshot == old(self).snapshot,
            final(self).items == old(self).items,
            final(self).dump_path == old(self).dump_path,
    {
        let period_ms: u64 = (self.snapshot.snapshot_period_secs as u64) * 1000;
        if self.snapshot.change_count > self.snapshot.snapshot_change_threshold
            && now_ms.saturating_sub(self.snapshot.last_snapshot_time) >= period_ms {
            self.snapshot.change_count = 0;
            self.snapshot.last_snapshot_time = now_ms;
            true
        } else {
            false
        }
    }

    /// The keys matching a pattern. A pattern without `*` selects by
    /// exact equality; a pattern with `*` is translated to a regular
    /// expression (`*` becomes "zero or more of any character") and an
    /// untranslatable pattern is an invalid-pattern error.
    pub fn keys(&self, expr: &str) -> (r: Result<Vec<String>, AppError>)
        requires
            self.wf(),
        ensures
            !expr@.contains('*') ==> (r matches Ok(ks) && ks@.map_values(|k: String| k@)
                == spec_exact_keys(self.items@, expr@)),
            expr@.contains('*') ==> {
                let pat = glob_to_regex_chars(expr@);
                &&& (r is Ok <==> regex_valid(pat))
                &&& (r matches Ok(ks) ==> ks@.map_values(|k: String| k@) == spec_regex_keys(
                    self.items@,
                    pat,
                ))
                &&& (r is Err ==> r == Err::<Vec<String>, AppError>(AppError::InvalidPattern))
            },
    {
        let mut out: Vec<String> = Vec::new();
        if str_contains_char(expr, '*') {
            let pattern = glob_pattern(expr);
            let ghost pat = glob_to_regex_chars(expr@);
            match glob_is_match(pattern.as_str(), "") {
                None => {
                    return Err(AppError::InvalidPattern);
                },
                Some(_) => (),
            }
            let mut i: usize = 0;
            while i < self.items.len()
                invariant
                    i <= self.items@.len(),
                    regex_valid(pat),
                    pattern@ == pat,
                    out@.map_values(|k: String| k@) == spec_regex_keys(
                        self.items@.take(i as int),
                        pat,
                    ),
                decreases self.items@.len() - i,
            {
                proof {
                    assert(self.items@.take(i + 1).drop_last() =~= self.items@.take(i as int));
                }
                match glob_is_match(pattern.as_str(), self.items[i].0.as_str()) {
                    Some(true) => {
                        let ghost prev = out@;
                        out.push(self.items[i].0.clone());
                        proof {
                            assert(out@.map_values(|k: String| k@) =~= prev.map_values(
                                |k: String| k@,
                            ).push(self.items@[i as int].0@));
                        }
                    },
                    Some(false) => (),
                    None => {
                        proof {
                            assert(false);
                        }
                        return Err(AppError::InvalidPattern);
                    },
                }
                i = i + 1;
            }
            proof {
                assert(self.items@.take(self.items@.len() as int) =~= self.items@);
            }
            Ok(out)
        } else {
            let mut i: usize = 0;
            while i < self.items.len()
                invariant
                    i <= self.items@.len(),
                    !expr@.contains('*'),
                    out@.map_values(|k: String| k@) == spec_exact_keys(
                        self.items@.take(i as int),
                        expr@,
                    ),
                decreases self.items@.len() - i,
            {
                proof {
                    assert(self.items@.take(i + 1).drop_last() =~= self.items@.take(i as int));
                }
                if str_eq_string(&self.items[i].0, expr) {
                    let ghost prev = out@;
                    out.push(self.items[i].0.clone());
                    proof {
                        assert(out@.map_values(|k: String| k@) =~= prev.map_values(
                            |k: String| k@,
                        ).push(self.items@[i as int].0@));
                    }
                }
                i = i + 1;
            }
            proof {
                assert(self.items@.take(self.items@.len() as int) =~= self.items@);
            }
            Ok(out)
        }
    }

    /// Serializes the whole map into snapshot bytes. Ages are recorded in
    /// whole elapsed seconds; an expiry wider than 32 bits is truncated
    /// to its low 32 bits, as the record layout dictates.
    pub fn save_rdb(&self, now_ms: u64) -> (out: Vec<u8>)
        ensures
            out@ == rdb::spec_encode(spec_records_of(self.items@, now_ms)),
    {
        let ghost rviews = spec_records_of(self.items@, now_ms);
        let mut records: Vec<Record> = Vec::new();
        let mut i: usize = 0;
        while i < self.items.len()
            invariant
                i <= self.items@.len(),
                rviews == spec_records_of(self.items@, now_ms),
                records@.map_values(|r: Record| r@) == rviews.take(i as int),
            decreases self.items@.len() - i,
        {
            let ghost prev = records@;
            let entry = &self.items[i];
            records.push(
                Record {
                    key: entry.0.as_str().as_bytes_vec(),
                    value: entry.1.value.as_str().as_bytes_vec(),
                    age_secs: now_ms.saturating_sub(entry.1.created) / 1000,
                    expires: #[verifier::truncate] (entry.1.expires as u32),
                },
            );
            proof {
                assert(records@.map_values(|r: Record| r@) =~= prev.map_values(
                    |r: Record| r@,
                ).push(spec_record_of(entry.0@, entry.1@, now_ms)));
                assert(rviews.take(i + 1) =~= rviews.take(i as int).push(rviews[i as int]));
            }
            i = i + 1;
        }
        proof {
            assert(rviews.take(self.items@.len() as int) =~= rviews);
        }
        rdb::encode_records(&records)
    }

    /// Reads a snapshot back: checks the header, decodes every record,
    /// rejects key or value bytes that are not text, and only then
    /// inserts all entries, later records overwriting earlier ones and
    /// every record overwriting a pre-existing entry with its key. On any
    /// error the store is left as it was. Loading counts no mutations.
    pub fn load_rdb(&mut self, bytes: &Vec<u8>, now_ms: u64) -> (r: Result<(), AppError>)
        requires
            old(self).wf(),
        ensures
            final(self).wf(),
            r is Ok <==> (rdb::spec_parse(bytes@) matches Ok(recs) && spec_records_text_ok(recs)),
            r is Ok ==> final(self).contents() == spec_loaded_map(
                old(self).contents(),
                rdb::spec_parse(bytes@)->Ok_0,
                now_ms,
            ),
            rdb::spec_parse(bytes@) matches Err(e) ==> (match e {
                RdbError::Truncated => r matches Err(ae) && ae is FileError,
                RdbError::BadFormat => r == Err::<(), AppError>(AppError::InvalidFileFormat),
            }),
            (rdb::spec_parse(bytes@) matches Ok(recs) && !spec_records_text_ok(recs)) ==> r
                == Err::<(), AppError>(AppError::InvalidFileFormat),
            r is Err ==> final(self).contents() == old(self).contents(),
            final(self).snapshot == old(self).snapshot,
            final(self).dump_path == old(self).dump_path,
    {
        let parsed = match rdb::parse(bytes) {
            Ok(rs) => rs,
            Err(RdbError::Truncated) => {
                return Err(AppError::FileError(String::from_str("unexpected end of file")));
            },
            Err(RdbError::BadFormat) => {
                return Err(AppError::InvalidFileFormat);
            },
        };
        let ghost recs = parsed@.map_values(|x: Record| x@);
        let mut texts: Vec<(String, String)> = Vec::new();
        let mut i: usize = 0;
        while i < parsed.len()
            invariant
                i <= parsed@.len(),
                recs == parsed@.map_values(|x: Record| x@),
                rdb::spec_parse(bytes@) == Ok::<Seq<RecordV>, RdbError>(recs),
                texts@.len() == i,
                forall|j: int|
                    0 <= j < i ==> valid_utf8((#[trigger] recs[j]).key) && valid_utf8(
                        recs[j].value,
                    ),
                forall|j: int|
                    0 <= j < i ==> (#[trigger] texts@[j]).0@ == decode_utf8(recs[j].key)
                        && texts@[j].1@ == decode_utf8(recs[j].value),
                self == old(self),
                self.wf(),
            decreases parsed@.len() - i,
        {
            proof {
                assert(recs[i as int] == parsed@[i as int]@);
            }
            let key = match string_from_utf8(&parsed[i].key) {
                Some(k) => k,
                None => {
                    return Err(AppError::InvalidFileFormat);
                },
            };
            let value = match string_from_utf8(&parsed[i].value) {
                Some(v) => v,
                None => {
                    return Err(AppError::InvalidFileFormat);
                },
            };
            texts.push((key, value));
            i = i + 1;
        }
        let ghost m0 = old(self).contents();
        proof {
            assert(recs.take(0) =~= Seq::<RecordV>::empty());
        }
        let mut i: usize = 0;
        while i < parsed.len()
            invariant
                i <= parsed@.len(),
                recs == parsed@.map_values(|x: Record| x@),
                texts@.len() == parsed@.len(),
                forall|j: int|
                    0 <= j < parsed@.len() ==> (#[trigger] texts@[j]).0@ == decode_utf8(
                        recs[j].key,
                    ) && texts@[j].1@ == decode_utf8(recs[j].value),
                self.wf(),
                self.contents() == spec_loaded_map(m0, recs.take(i as int), now_ms),
                self.snapshot == old(self).snapshot,
                self.dump_path == old(self).dump_path,
            decreases parsed@.len() - i,
        {
            let rec = &parsed[i];
            let key = texts[i].0.clone();
            let value = texts[i].1.clone();
            let age_ms = match rec.age_secs.checked_mul(1000) {
                Some(v) => v,
                None => u64::MAX,
            };
            let created = now_ms.saturating_sub(age_ms);
            let item = Item { value, created, expires: rec.expires as usize };
            self.insert_item(key, item);
            proof {
                assert(recs.take(i + 1).drop_last() =~= recs.take(i as int));
                assert(item@ == spec_loaded_item(recs[i as int], now_ms));
            }
            i = i + 1;
        }
        proof {
            assert(recs.take(parsed@.len() as int) =~= recs);
        }
        Ok(())
    }

    /// One pass of the snapshot scheduler: when a snapshot is due, hands
    /// back the bytes to write (the decision already counted, the dirty
    /// counter reset, the baseline advanced) and keeps the sleep
    /// interval; when none is due, hands back no bytes and the configured
    /// period as the next sleep interval.
    pub fn scheduler_tick(&mut self, now_ms: u64, sleep_secs: u32) -> (r: (Option<Vec<u8>>, u32))
        requires
            old(self).wf(),
        ensures
            final(self).wf(),
            final(self).items == old(self).items,
            final(self).dump_path == old(self).dump_path,
            spec_snapshot_due(old(self).snapshot, now_ms) ==> {
                &&& r.0 matches Some(bytes) && bytes@ == rdb::spec_encode(
                    spec_records_of(old(self).items@, now_ms),
                )
                &&& r.1 == sleep_secs
                &&& final(self).snapshot == (Snapshot {
                    change_count: 0,
                    last_snapshot_time: now_ms,
                    ..old(self).snapshot
                })
            },
            !spec_snapshot_due(old(self).snapshot, now_ms) ==> {
                &&& r.0 is None
                &&& r.1 == old(self).snapshot.snapshot_period_secs
                &&& final(self).snapshot == old(self).snapshot
            },
    {
        if self.should_take_snapshot(now_ms) {
            let bytes = self.save_rdb(now_ms);
            (Some(bytes), sleep_secs)
        } else {
            (None, self.snapshot.snapshot_period_secs)
        }
    }
}

impl Default for Storage {
    /// An empty storage whose clock starts at zero.
    fn default() -> (r: Storage)
        ensures
            r.wf(),
            r.contents() == Map::<Seq<char>, ItemV>::empty(),
            r.snapshot.change_count == 0,
            r.snapshot.last_snapshot_time == 0,
    {
        Storage::new(0)
    }
}

/// What one entry becomes in the snapshot: UTF-8 key and value bytes,
/// its age in whole seconds at save time, and its expiry truncated to 32
/// bits.
pub open spec fn spec_record_of(k: Seq<char>, it: ItemV, now_ms: u64) -> RecordV {
    RecordV {
        key: encode_utf8(k),
        value: encode_utf8(it.value),
        age_secs: (spec_elapsed_ms(now_ms, it.created) / 1000) as u64,
        expires: it.expires as u32,
    }
}

/// The records a save writes, in map order.
pub open spec fn spec_records_of(s: Seq<(String, Item)>, now_ms: u64) -> Seq<RecordV> {
    s.map_values(|p: (String, Item)| spec_record_of(p.0@, p.1@, now_ms))
}

/// Every record's key and value bytes are valid text.
pub open spec fn spec_records_text_ok(recs: Seq<RecordV>) -> bool {
    forall|i: int|
        0 <= i < recs.len() ==> valid_utf8((#[trigger] recs[i]).key) && valid_utf8(recs[i].value)
}

/// The creation time a loaded record gets: the age is subtracted from
/// now, clamping at the start of the clock.
pub open spec fn spec_loaded_created(now_ms: u64, age_secs: u64) -> u64 {
    if age_secs * 1000 > now_ms {
        0u64
    } else {
        (now_ms - age_secs * 1000) as u64
    }
}

/// The entry a loaded record becomes.
pub open spec fn spec_loaded_item(r: RecordV, now_ms: u64) -> ItemV {
    ItemV {
        value: decode_utf8(r.value),
        created: spec_loaded_created(now_ms, r.age_secs),
        expires: r.expires as usize,
    }
}

/// The map after inserting every record in order, later records
/// overwriting earlier ones.
pub open spec fn spec_loaded_map(
    m: Map<Seq<char>, ItemV>,
    recs: Seq<RecordV>,
    now_ms: u64,
) -> Map<Seq<char>, ItemV>
    decreases recs.len(),
{
    if recs.len() == 0 {
        m
    } else {
        spec_loaded_map(m, recs.drop_last(), now_ms).insert(
            decode_utf8(recs.last().key),
            spec_loaded_item(recs.last(), now_ms),
        )
    }
}

/// Text without a NUL character encodes to bytes without a NUL byte:
/// every multi-byte unit of the encoding has its high bit set, and the
/// single-byte unit is zero only for the NUL character itself.
pub proof fn lemma_encode_utf8_no_nul(s: Seq<char>)
    requires
        !s.contains('\0'),
    ensures
        !encode_utf8(s).contains(0u8),
    decreases s.len(),
{
    if s.len() > 0 {
        let c = s[0];
        let u = c as u32;
        char_is_scalar(c);
        if c == '\0' {
            assert(s.contains('\0'));
        }
        if u == 0 {
            char_u32_cast(c, u);
            assert(('\0' as u32) == 0);
            char_u32_cast('\0', 0);
        }
        let sc = encode_scalar(u);
        assert forall|j: int| 0 <= j < sc.len() implies sc[j] != 0 by {
            if has_width_1_encoding(u) {
                assert(((u & 0x7F) as u8) != 0) by (bit_vector)
                    requires
                        u <= 0x7F,
                        u != 0u32,
                ;
            } else {
                assert((0xC0u8 | (((u >> 6) & 0x1F) as u8)) != 0) by (bit_vector);
                assert((0xE0u8 | (((u >> 12) & 0x0F) as u8)) != 0) by (bit_vector);
                assert((0xF0u8 | (((u >> 18) & 0x7) as u8)) != 0) by (bit_vector);
                assert((0x80u8 | ((u & 0x3F) as u8)) != 0) by (bit_vector);
                assert((0x80u8 | (((u >> 6) & 0x3F) as u8)) != 0) by (bit_vector);
                assert((0x80u8 | (((u >> 12) & 0x3F) as u8)) != 0) by (bit_vector);
            }
        }
        if s.drop_first().contains('\0') {
            let j = choose|j: int|
                0 <= j < s.drop_first().len() && s.drop_first()[j] == '\0';
            assert(s[j + 1] == '\0');
            assert(s.contains('\0'));
        }
        lemma_encode_utf8_no_nul(s.drop_first());
        let rest = encode_utf8(s.drop_first());
        if (sc + rest).contains(0u8) {
            let j = choose|j: int| 0 <= j < (sc + rest).len() && (sc + rest)[j] == 0u8;
            if j >= sc.len() {
                assert(rest[j - sc.len()] == 0u8);
                assert(rest.contains(0u8));
            }
        }
        assert(encode_utf8(s) == sc + rest);
    }
}

/// Each entry as one loaded record keeps its key, value and expiry:
/// loading what was saved into a fresh storage rebuilds a map with the
/// same keys, each holding the same value and the same expiry, for any
/// save and load times — provided every expiry fits the 32 bits of the
/// record layout.
pub proof fn lemma_loaded_map_of(items: Seq<(String, Item)>, now_save: u64, now_load: u64)
    requires
        keys_distinct(items),
        forall|i: int| 0 <= i < items.len() ==> (#[trigger] items[i]).1.expires <= u32::MAX,
    ensures
        ({
            let m1 = map_of(items);
            let m2 = spec_loaded_map(
                Map::<Seq<char>, ItemV>::empty(),
                spec_records_of(items, now_save),
                now_load,
            );
            &&& m2.dom() == m1.dom()
            &&& forall|k: Seq<char>| #[trigger]
                m1.contains_key(k) ==> m2[k].value == m1[k].value && m2[k].expires == m1[k].expires
        }),
    decreases items.len(),
{
    broadcast use vstd::utf8::encode_utf8_decode_utf8;

    let recs = spec_records_of(items, now_save);
    let m1 = map_of(items);
    let m2 = spec_loaded_map(Map::<Seq<char>, ItemV>::empty(), recs, now_load);
    if items.len() == 0 {
        assert(recs =~= Seq::<RecordV>::empty());
        assert(m2.dom() =~= m1.dom());
    } else {
        let pre = items.drop_last();
        assert(forall|i: int| 0 <= i < pre.len() ==> pre[i] == items[i]);
        lemma_loaded_map_of(pre, now_save, now_load);
        assert(recs.drop_last() =~= spec_records_of(pre, now_save));
        assert(recs.last() == spec_record_of(items.last().0@, items.last().1@, now_save));
        let m1p = map_of(pre);
        let m2p = spec_loaded_map(
            Map::<Seq<char>, ItemV>::empty(),
            spec_records_of(pre, now_save),
            now_load,
        );
        let lastk = items.last().0@;
        let lastv = items.last().1@;
        assert(decode_utf8(recs.last().key) == lastk);
        assert(spec_loaded_item(recs.last(), now_load).value == lastv.value);
        assert((lastv.expires as u32) as usize == lastv.expires);
        assert(m2 == m2p.insert(lastk, spec_loaded_item(recs.last(), now_load)));
        assert(m1 == m1p.insert(lastk, lastv));
        assert(m2.dom() =~= m1.dom());
    }
}

/// Round trip: the bytes a save writes parse back to exactly the records
/// written, every record's text decodes, and the loaded map has the same
/// keys, values and expiry as the saved one — provided no key or value
/// contains a NUL character and every expiry fits the 32 bits of the
/// record layout.
pub proof fn lemma_save_load_round_trip(items: Seq<(String, Item)>, now_save: u64, now_load: u64)
    requires
        keys_distinct(items),
        forall|i: int| 0 <= i < items.len() ==> !(#[trigger] items[i]).0@.contains('\0'),
        forall|i: int| 0 <= i < items.len() ==> !(#[trigger] items[i]).1.value@.contains('\0'),
        forall|i: int| 0 <= i < items.len() ==> (#[trigger] items[i]).1.expires <= u32::MAX,
    ensures
        rdb::spec_parse(rdb::spec_encode(spec_records_of(items, now_save))) == Ok::<
            Seq<RecordV>,
            RdbError,
        >(spec_records_of(items, now_save)),
        spec_records_text_ok(spec_records_of(items, now_save)),
        ({
            let m1 = map_of(items);
            let m2 = spec_loaded_map(
                Map::<Seq<char>, ItemV>::empty(),
                spec_records_of(items, now_save),
                now_load,
            );
            &&& m2.dom() == m1.dom()
            &&& forall|k: Seq<char>| #[trigger]
                m1.contains_key(k) ==> m2[k].value == m1[k].value && m2[k].expires == m1[k].expires
        }),
{
    broadcast use vstd::utf8::encode_utf8_valid_utf8;

    let recs = spec_records_of(items, now_save);
    assert forall|i: int| 0 <= i < recs.len() implies rdb::record_wf(#[trigger] recs[i]) by {
        lemma_encode_utf8_no_nul(items[i].0@);
        lemma_encode_utf8_no_nul(items[i].1.value@);
    }
    rdb::lemma_parse_encode(recs);
    assert forall|i: int|
        0 <= i < recs.len() implies valid_utf8((#[trigger] recs[i]).key) && valid_utf8(
        recs[i].value,
    ) by {
        assert(recs[i].key == encode_utf8(items[i].0@));
        assert(recs[i].value == encode_utf8(items[i].1.value@));
    }
    lemma_loaded_map_of(items, now_save, now_load);
}

/// The sets other tasks perform, applied in order.
pub open spec fn spec_apply_sets(
    m: Map<Seq<char>, ItemV>,
    ops: Seq<(Seq<char>, ItemV)>,
) -> Map<Seq<char>, ItemV>
    decreases ops.len(),
{
    if ops.len() == 0 {
        m
    } else {
        spec_apply_sets(m, ops.drop_last()).insert(ops.last().0, ops.last().1)
    }
}

/// No lost update: after a task writes its own key, any interleaving of
/// writes to other keys leaves that entry exactly as written, so the
/// task's own read observes its own write.
pub proof fn lemma_no_lost_update(
    m: Map<Seq<char>, ItemV>,
    k: Seq<char>,
    v: ItemV,
    ops: Seq<(Seq<char>, ItemV)>,
)
    requires
        forall|i: int| 0 <= i < ops.len() ==> (#[trigger] ops[i]).0 != k,
    ensures
        spec_apply_sets(m.insert(k, v), ops).contains_key(k),
        spec_apply_sets(m.insert(k, v), ops)[k] == v,
    decreases ops.len(),
{
    if ops.len() > 0 {
        lemma_no_lost_update(m, k, v, ops.drop_last());
    }
}

/// A due snapshot fires exactly once: the decision resets the counter
/// and advances the baseline, so an immediate second decision is never
/// due again.
pub proof fn lemma_snapshot_fires_once(s: Snapshot, now_ms: u64)
    requires
        spec_snapshot_due(s, now_ms),
    ensures
        !spec_snapshot_due(
            Snapshot { change_count: 0, last_snapshot_time: now_ms, ..s },
            now_ms,
        ),
{
}

/// Relies on String::from_utf8: it succeeds exactly on valid UTF-8 and
/// yields the characters the bytes encode.
#[verifier::external_body]
fn string_from_utf8(bytes: &Vec<u8>) -> (r: Option<String>)
    ensures
        r is Some <==> valid_utf8(bytes@),
        r matches Some(s) ==> s@ == decode_utf8(bytes@),
{
    String::from_utf8(bytes.clone()).ok()
}

/// Milliseconds elapsed from `since` to `now_ms`, never negative: the
/// storage clock never runs backwards, so a caller that hands in an
/// earlier time reads as zero elapsed.
pub open spec fn spec_elapsed_ms(now_ms: u64, since: u64) -> int {
    if now_ms >= since {
        now_ms - since
    } else {
        0
    }
}

/// A snapshot is due when the mutation count exceeds the threshold and
/// the configured period has elapsed since the last snapshot decision.
pub open spec fn spec_snapshot_due(s: Snapshot, now_ms: u64) -> bool {
    s.change_count > s.snapshot_change_threshold && spec_elapsed_ms(now_ms, s.last_snapshot_time)
        >= s.snapshot_period_secs * 1000
}

/// The map left after removing the listed keys in order.
pub open spec fn spec_del_map(m: Map<Seq<char>, ItemV>, ks: Seq<Seq<char>>) -> Map<
    Seq<char>,
    ItemV,
>
    decreases ks.len(),
{
    if ks.len() == 0 {
        m
    } else {
        spec_del_map(m.remove(ks[0]), ks.drop_first())
    }
}

/// How many of the listed keys are removed: one per key still present
/// when its turn comes.
pub open spec fn spec_del_count(m: Map<Seq<char>, ItemV>, ks: Seq<Seq<char>>) -> nat
    decreases ks.len(),
{
    if ks.len() == 0 {
        0
    } else {
        (if m.contains_key(ks[0]) {
            1nat
        } else {
            0nat
        }) + spec_del_count(m.remove(ks[0]), ks.drop_first())
    }
}

/// Unfolds the removal of one more key at the end of the list.
proof fn lemma_del_map_take(m: Map<Seq<char>, ItemV>, ks: Seq<Seq<char>>, i: int)
    requires
        0 <= i < ks.len(),
    ensures
        spec_del_map(m, ks.take(i + 1)) == spec_del_map(m, ks.take(i)).remove(ks[i]),
        spec_del_count(m, ks.take(i + 1)) == spec_del_count(m, ks.take(i)) + (if spec_del_map(
            m,
            ks.take(i),
        ).contains_key(ks[i]) {
            1nat
        } else {
            0nat
        }),
    decreases ks.len(),
{
    lemma_del_push(m, ks.take(i), ks[i]);
    assert(ks.take(i + 1) =~= ks.take(i).push(ks[i]));
}

/// Removing one more key removes it from the result and counts it when
/// still present.
proof fn lemma_del_push(m: Map<Seq<char>, ItemV>, ks: Seq<Seq<char>>, k: Seq<char>)
    ensures
        spec_del_map(m, ks.push(k)) == spec_del_map(m, ks).remove(k),
        spec_del_count(m, ks.push(k)) == spec_del_count(m, ks) + (if spec_del_map(
            m,
            ks,
        ).contains_key(k) {
            1nat
        } else {
            0nat
        }),
    decreases ks.len(),
{
    if ks.len() == 0 {
        assert(ks.push(k).drop_first() =~= Seq::<Seq<char>>::empty());
        assert(ks.push(k)[0] == k);
        assert(spec_del_map(m.remove(k), Seq::<Seq<char>>::empty()) == m.remove(k));
        assert(spec_del_count(m.remove(k), Seq::<Seq<char>>::empty()) == 0);
        assert(spec_del_map(m, ks) == m);
        assert(spec_del_count(m, ks) == 0);
    } else {
        assert(ks.push(k).drop_first() =~= ks.drop_first().push(k));
        assert(ks.push(k)[0] == ks[0]);
        lemma_del_push(m.remove(ks[0]), ks.drop_first(), k);
        assert(spec_del_map(m, ks.push(k)) == spec_del_map(
            m.remove(ks[0]),
            ks.drop_first().push(k),
        ));
        assert(spec_del_count(m, ks.push(k)) == (if m.contains_key(ks[0]) {
            1nat
        } else {
            0nat
        }) + spec_del_count(m.remove(ks[0]), ks.drop_first().push(k)));
        assert(spec_del_map(m, ks) == spec_del_map(m.remove(ks[0]), ks.drop_first()));
        assert(spec_del_count(m, ks) == (if m.contains_key(ks[0]) {
            1nat
        } else {
            0nat
        }) + spec_del_count(m.remove(ks[0]), ks.drop_first()));
    }
}

/// Removing keys one at a time is removing the whole key set.
proof fn lemma_del_map_is_remove_keys(m: Map<Seq<char>, ItemV>, ks: Seq<Seq<char>>)
    ensures
        spec_del_map(m, ks) == m.remove_keys(ks.to_set()),
    decreases ks.len(),
{
    if ks.len() == 0 {
        assert(spec_del_map(m, ks) =~= m.remove_keys(ks.to_set()));
    } else {
        lemma_del_map_is_remove_keys(m.remove(ks[0]), ks.drop_first());
        assert forall|x: Seq<char>|
            ks.to_set().contains(x) <==> (x == ks[0] || ks.drop_first().to_set().contains(
                x,
            )) by {
            if ks.contains(x) {
                let i = choose|i: int| 0 <= i < ks.len() && ks[i] == x;
                if i > 0 {
                    assert(ks.drop_first()[i - 1] == x);
                }
            }
            if ks.drop_first().contains(x) {
                let j = choose|j: int| 0 <= j < ks.drop_first().len() && ks.drop_first()[j] == x;
                assert(ks[j + 1] == x);
            }
            if x == ks[0] {
                assert(ks[0] == x);
            }
        }
        assert(m.remove(ks[0]).remove_keys(ks.drop_first().to_set()) =~= m.remove_keys(
            ks.to_set(),
        ));
    }
}

/// The keys of the pairs equal to the pattern, in order.
pub open spec fn spec_exact_keys(s: Seq<(String, Item)>, p: Seq<char>) -> Seq<Seq<char>>
    decreases s.len(),
{
    if s.len() == 0 {
        Seq::empty()
    } else {
        spec_exact_keys(s.drop_last(), p) + (if s.last().0@ == p {
            seq![s.last().0@]
        } else {
            Seq::empty()
        })
    }
}

/// The keys of the pairs the compiled pattern matches, in order.
pub open spec fn spec_regex_keys(s: Seq<(String, Item)>, pat: Seq<char>) -> Seq<Seq<char>>
    decreases s.len(),
{
    if s.len() == 0 {
        Seq::empty()
    } else {
        spec_regex_keys(s.drop_last(), pat) + (if regex_match(pat, s.last().0@) {
            seq![s.last().0@]
        } else {
            Seq::empty()
        })
    }
}

/// The wildcard pattern as a regular expression: each `*` becomes `.*`,
/// every other character stands for itself.
pub open spec fn glob_to_regex_chars(p: Seq<char>) -> Seq<char>
    decreases p.len(),
{
    if p.len() == 0 {
        Seq::empty()
    } else {
        (if p[0] == '*' {
            seq!['.', '*']
        } else {
            seq![p[0]]
        }) + glob_to_regex_chars(p.drop_first())
    }
}

/// Appending one character to the pattern appends its translation.
proof fn lemma_glob_to_regex_push(p: Seq<char>, c: char)
    ensures
        glob_to_regex_chars(p.push(c)) == glob_to_regex_chars(p) + (if c == '*' {
            seq!['.', '*']
        } else {
            seq![c]
        }),
    decreases p.len(),
{
    if p.len() == 0 {
        assert(p.push(c).drop_first() =~= Seq::<char>::empty());
        assert(p.push(c)[0] == c);
        assert(glob_to_regex_chars(Seq::<char>::empty()) == Seq::<char>::empty());
        assert(glob_to_regex_chars(p) == Seq::<char>::empty());
        assert(glob_to_regex_chars(p.push(c)) =~= glob_to_regex_chars(p) + (if c == '*' {
            seq!['.', '*']
        } else {
            seq![c]
        }));
    } else {
        assert(p.push(c).drop_first() =~= p.drop_first().push(c));
        assert(p.push(c)[0] == p[0]);
        lemma_glob_to_regex_push(p.drop_first(), c);
        assert(glob_to_regex_chars(p.push(c)) =~= glob_to_regex_chars(p) + (if c == '*' {
            seq!['.', '*']
        } else {
            seq![c]
        }));
    }
}

/// Builds the regular-expression text for a wildcard pattern.
fn glob_pattern(expr: &str) -> (r: String)
    ensures
        r@ == glob_to_regex_chars(expr@),
{
    proof {
        reveal_strlit(".*");
    }
    let n = expr.unicode_len();
    let mut r = String::new();
    let mut i: usize = 0;
    while i < n
        invariant
            i <= n,
            n == expr@.len(),
            r@ == glob_to_regex_chars(expr@.take(i as int)),
            ".*"@ == seq!['.', '*'],
        decreases n - i,
    {
        let c = expr.get_char(i);
        if c == '*' {
            r.append(".*");
        } else {
            let piece = expr.substring_char(i, i + 1);
            proof {
                assert(piece@ =~= seq![expr@[i as int]]);
            }
            r.append(piece);
        }
        proof {
            assert(expr@.take(i + 1) =~= expr@.take(i as int).push(expr@[i as int]));
            lemma_glob_to_regex_push(expr@.take(i as int), expr@[i as int]);
        }
        i = i + 1;
    }
    proof {
        assert(expr@.take(n as int) =~= expr@);
    }
    r
}

/// Whether a pattern is accepted by the regular-expression engine; a
/// function of the pattern alone.
pub uninterp spec fn regex_valid(pattern: Seq<char>) -> bool;

/// Whether the compiled pattern matches somewhere in the text; a function
/// of pattern and text alone.
pub uninterp spec fn regex_match(pattern: Seq<char>, text: Seq<char>) -> bool;

/// Relies on regex::Regex::new and regex::Regex::is_match: compilation
/// succeeds or fails on the pattern text alone, and a compiled pattern
/// matches a haystack as a function of the two texts alone.
#[verifier::external_body]
fn glob_is_match(pattern: &str, text: &str) -> (r: Option<bool>)
    ensures
        r is Some <==> regex_valid(pattern@),
        r matches Some(b) ==> b == regex_match(pattern@, text@),
{
    regex::Regex::new(pattern).ok().map(|re| re.is_match(text))
}

} // verus!
