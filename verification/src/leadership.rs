//! Which browser tab streams live data: one tab leads and shares what it
//! receives through the browser's storage; the others read it from there.
use vstd::prelude::*;
use crate::text::{chars_of, decimal, digit_char, push_decimal, slice_equals};

verus! {

/// A leader that has not renewed its claim for this many milliseconds is
/// replaced.
pub const LEADER_STALE_MS: u64 = 7000;

/// Whether `c` is an ASCII decimal digit.
pub open spec fn is_digit(c: char) -> bool {
    '0' <= c <= '9'
}

/// The value of the decimal digits `s`.
pub open spec fn digits_value(s: Seq<char>) -> int
    decreases s.len(),
{
    if s.len() == 0 {
        0
    } else {
        digits_value(s.drop_last()) * 10 + (s.last() as int - 48)
    }
}

/// `s` without a leading `+`.
pub open spec fn unsigned_digits(s: Seq<char>) -> Seq<char> {
    if s.len() > 0 && s[0] == '+' {
        s.drop_first()
    } else {
        s
    }
}

/// Every character of `d` is a decimal digit.
pub open spec fn all_digits(d: Seq<char>) -> bool {
    forall|i: int| 0 <= i < d.len() ==> is_digit(#[trigger] d[i])
}

/// What `u64::from_str` gives for `s`: an optional `+` followed by at least
/// one digit, nothing else, the value fitting in 64 bits.
pub open spec fn parse_u64_spec(s: Seq<char>) -> Option<u64> {
    let d = unsigned_digits(s);
    if d.len() == 0 || !all_digits(d) || digits_value(d) > u64::MAX {
        None
    } else {
        Some(digits_value(d) as u64)
    }
}

proof fn lemma_digits_value_grows(s: Seq<char>, i: int)
    requires
        0 <= i <= s.len(),
        forall|j: int| 0 <= j < s.len() ==> is_digit(#[trigger] s[j]),
    ensures
        digits_value(s) >= digits_value(s.take(i)) >= 0,
    decreases s.len(),
{
    if i == s.len() {
        assert(s.take(i) =~= s);
        if s.len() > 0 {
            lemma_digits_value_grows(s.drop_last(), 0);
        }
    } else {
        let t = s.drop_last();
        assert(t.take(i) =~= s.take(i));
        assert forall|j: int| 0 <= j < t.len() implies is_digit(#[trigger] t[j]) by {
            assert(t[j] == s[j]);
        }
        lemma_digits_value_grows(t, i);
        assert(is_digit(s[s.len() - 1]));
    }
}

/// Parses `s` as `u64::from_str` does.
pub fn parse_u64(s: &str) -> (r: Option<u64>)
    ensures
        r == parse_u64_spec(s@),
{
    let v = chars_of(s);
    let start: usize = if v.len() > 0 && v[0] == '+' {
        1
    } else {
        0
    };
    let ghost d = unsigned_digits(s@);
    assert(v@.subrange(start as int, v@.len() as int) =~= d);
    if start == v.len() {
        return None;
    }
    let mut value: u64 = 0;
    let mut i: usize = start;
    while i < v.len()
        invariant
            start <= i <= v@.len(),
            v@ == s@,
            d == v@.subrange(start as int, v@.len() as int),
            d == unsigned_digits(s@),
            forall|j: int| start <= j < i ==> is_digit(#[trigger] v@[j]),
            value == digits_value(v@.subrange(start as int, i as int)),
        decreases v.len() - i,
    {
        let c = v[i];
        assert(v@.subrange(start as int, i + 1).drop_last() =~= v@.subrange(start as int, i as int));
        if !('0' <= c && c <= '9') {
            assert(d[i - start] == v@[i as int]);
            assert(!is_digit(d[i - start]));
            assert(!all_digits(d));
            return None;
        }
        let digit: u64 = (c as u32 - 48) as u64;
        if value > (u64::MAX - digit) / 10 {
            proof {
                assert forall|j: int| 0 <= j < i + 1 - start implies is_digit(
                    #[trigger] v@.subrange(start as int, i + 1)[j],
                ) by {
                    assert(v@.subrange(start as int, i + 1)[j] == v@[start + j]);
                }
                assert(digits_value(v@.subrange(start as int, i + 1)) > u64::MAX) by (nonlinear_arith)
                    requires
                        value > (u64::MAX - digit) / 10,
                        digits_value(v@.subrange(start as int, i + 1)) == value * 10 + digit,
                        digit <= 9,
                ;
                if all_digits(d) {
                    assert(d.take(i + 1 - start) =~= v@.subrange(start as int, i + 1));
                    lemma_digits_value_grows(d, i + 1 - start);
                    assert(digits_value(d) > u64::MAX);
                }
            }
            return None;
        }
        assert(value * 10 + digit <= u64::MAX) by (nonlinear_arith)
            requires
                value <= (u64::MAX - digit) / 10,
                digit <= 9,
        ;
        value = value * 10 + digit;
        i = i + 1;
    }
    assert(all_digits(d)) by {
        assert forall|j: int| 0 <= j < d.len() implies is_digit(#[trigger] d[j]) by {
            assert(d[j] == v@[start + j]);
        }
    }
    Some(value)
}

/// Whether texts `a` and `b` are equal.
pub fn text_equal(a: &str, b: &str) -> (r: bool)
    ensures
        r == (a@ == b@),
{
    let v = chars_of(a);
    assert(v@.subrange(0, v@.len() as int) =~= v@);
    slice_equals(&v, 0, v.len(), b)
}

/// The leader entry read from the browser's storage: the leading tab's id
/// and the text of its last heartbeat time, each where present.
pub struct LeaderRecord {
    pub id: Option<String>,
    pub ts: Option<String>,
}

/// What to write back to the storage.
#[derive(PartialEq, Eq, Structural, Debug, Clone, Copy)]
pub enum LeaderWrite {
    /// Leave it as it is.
    Keep,
    /// Remove the leader entry.
    Release,
    /// Record this tab as leader, with the current time.
    Claim,
}

/// Whether this tab leads, and what it writes to the storage.
#[derive(PartialEq, Eq, Structural, Debug, Clone, Copy)]
pub struct LeaderDecision {
    pub leader: bool,
    pub write: LeaderWrite,
}

/// The stored entry names `tab_id`.
pub open spec fn names_tab(record: LeaderRecord, tab_id: Seq<char>) -> bool {
    record.id matches Some(id) && id@ == tab_id
}

/// The stored heartbeat lies more than `LEADER_STALE_MS` before `now`; an
/// unreadable one counts as time 0.
pub open spec fn is_stale(record: LeaderRecord, now: u64) -> bool {
    let ts = match record.ts {
        Some(t) => match parse_u64_spec(t@) {
            Some(v) => v as int,
            None => 0,
        },
        None => 0,
    };
    (if now >= ts {
        now - ts
    } else {
        0
    }) > LEADER_STALE_MS
}

/// The decision for tab `tab_id` at `now`. Without storage a tab leads
/// whenever it may. A tab that may not lead steps down, clearing its own
/// claim. A tab that may lead takes over when it already leads, when nobody
/// does, or when the leader went stale.
pub open spec fn leadership(
    tab_id: Seq<char>,
    can_lead: bool,
    storage: Option<LeaderRecord>,
    now: u64,
) -> LeaderDecision {
    match storage {
        None => LeaderDecision { leader: can_lead, write: LeaderWrite::Keep },
        Some(record) => if !can_lead {
            LeaderDecision {
                leader: false,
                write: if names_tab(record, tab_id) {
                    LeaderWrite::Release
                } else {
                    LeaderWrite::Keep
                },
            }
        } else if names_tab(record, tab_id) || record.id is None || is_stale(record, now) {
            LeaderDecision { leader: true, write: LeaderWrite::Claim }
        } else {
            LeaderDecision { leader: false, write: LeaderWrite::Keep }
        },
    }
}

/// Renews, takes or gives up the lead of tab `tab_id` at time `now` (ms).
pub fn renew_stream_leadership(
    tab_id: &str,
    can_lead: bool,
    storage: Option<LeaderRecord>,
    now: u64,
) -> (d: LeaderDecision)
    ensures
        d == leadership(tab_id@, can_lead, storage, now),
{
    let record = match storage {
        Some(r) => r,
        None => {
            return LeaderDecision { leader: can_lead, write: LeaderWrite::Keep };
        },
    };
    let current_ts: u64 = match &record.ts {
        Some(t) => match parse_u64(t.as_str()) {
            Some(v) => v,
            None => 0,
        },
        None => 0,
    };
    let stale = now.saturating_sub(current_ts) > LEADER_STALE_MS;
    let is_self = match &record.id {
        Some(id) => text_equal(id.as_str(), tab_id),
        None => false,
    };
    if !can_lead {
        return LeaderDecision {
            leader: false,
            write: if is_self {
                LeaderWrite::Release
            } else {
                LeaderWrite::Keep
            },
        };
    }
    if is_self || record.id.is_none() || stale {
        LeaderDecision { leader: true, write: LeaderWrite::Claim }
    } else {
        LeaderDecision { leader: false, write: LeaderWrite::Keep }
    }
}

/// A tab that may not lead never leads, and one that leads always records
/// its claim where storage exists.
pub proof fn law_leadership_consistent(
    tab_id: Seq<char>,
    can_lead: bool,
    storage: Option<LeaderRecord>,
    now: u64,
)
    ensures
        !can_lead ==> !leadership(tab_id, can_lead, storage, now).leader,
        storage is Some && leadership(tab_id, can_lead, storage, now).leader ==> leadership(
            tab_id,
            can_lead,
            storage,
            now,
        ).write == LeaderWrite::Claim,
        leadership(tab_id, can_lead, storage, now).write == LeaderWrite::Release ==> (
        storage matches Some(r) && names_tab(r, tab_id)),
{
}

/// Who leads, by what the storage holds. A tab that may lead keeps or takes
/// the lead when the stored id is its own or absent, or when the stored
/// heartbeat lies more than `LEADER_STALE_MS` in the past; while another
/// tab's id is stored with a heartbeat no older than that, it neither leads
/// nor writes. A tab that may not lead never leads, and removes the entry
/// only where it is its own.
pub proof fn law_leader_by_stored_entry(
    tab_id: Seq<char>,
    can_lead: bool,
    record: LeaderRecord,
    now: u64,
)
    ensures
        record.id matches Some(id) && id@ != tab_id && (record.ts matches Some(t) && parse_u64_spec(
            t@,
        ) matches Some(beat) && now <= beat + LEADER_STALE_MS) ==> leadership(
            tab_id,
            can_lead,
            Some(record),
            now,
        ) == (LeaderDecision { leader: false, write: LeaderWrite::Keep }),
        record.id matches Some(id) && id@ == tab_id ==> leadership(
            tab_id,
            can_lead,
            Some(record),
            now,
        ) == (if can_lead {
            LeaderDecision { leader: true, write: LeaderWrite::Claim }
        } else {
            LeaderDecision { leader: false, write: LeaderWrite::Release }
        }),
        record.id is None ==> leadership(tab_id, can_lead, Some(record), now) == (if can_lead {
            LeaderDecision { leader: true, write: LeaderWrite::Claim }
        } else {
            LeaderDecision { leader: false, write: LeaderWrite::Keep }
        }),
        can_lead && (record.ts matches Some(t) && parse_u64_spec(t@) matches Some(beat) && now
            > beat + LEADER_STALE_MS) ==> leadership(tab_id, can_lead, Some(record), now) == (
        LeaderDecision { leader: true, write: LeaderWrite::Claim }),
        !can_lead && !(record.id matches Some(id) && id@ == tab_id) ==> leadership(
            tab_id,
            can_lead,
            Some(record),
            now,
        ) == (LeaderDecision { leader: false, write: LeaderWrite::Keep }),
{
}

/// The heartbeat time a leading tab stores: `now` in decimal.
pub fn timestamp_text(now: u64) -> (r: String)
    ensures
        r@ == decimal(now as nat),
{
    let mut r = String::new();
    push_decimal(&mut r, now);
    r
}

proof fn lemma_decimal_digits(n: nat)
    ensures
        decimal(n).len() > 0,
        all_digits(decimal(n)),
        digits_value(decimal(n)) == n,
    decreases n,
{
    let c = digit_char(n % 10);
    assert(c as int == n % 10 + 48);
    if n >= 10 {
        lemma_decimal_digits(n / 10);
        let d = decimal(n / 10).push(c);
        assert(d.drop_last() =~= decimal(n / 10));
        assert(d.last() == c);
        assert(digits_value(d) == digits_value(decimal(n / 10)) * 10 + (c as int - 48));
        assert((n / 10) * 10 + n % 10 == n);
        assert forall|i: int| 0 <= i < d.len() implies is_digit(#[trigger] d[i]) by {
            if i < d.len() - 1 {
                assert(d[i] == decimal(n / 10)[i]);
            }
        }
    } else {
        let d = seq![c];
        assert(d.drop_last() =~= Seq::<char>::empty());
        assert(d.last() == c);
        assert(digits_value(d) == digits_value(Seq::<char>::empty()) * 10 + (c as int - 48));
    }
}

/// A stored heartbeat reads back as the time that was written.
pub proof fn law_heartbeat_round_trip(now: u64)
    ensures
        parse_u64_spec(decimal(now as nat)) == Some(now),
{
    lemma_decimal_digits(now as nat);
    assert(unsigned_digits(decimal(now as nat)) == decimal(now as nat));
}

} // verus!
