//! Whitespace-separated lists of unsigned decimal numbers, the format of
//! the cluster nodes that list cores and frequencies.
use vstd::prelude::*;
use vstd::string::StringSliceAdditionalSpecFns;

verus! {

/// ASCII whitespace: space, tab, line feed, vertical tab, form feed,
/// carriage return.
pub open spec fn is_space(c: u8) -> bool {
    c == 32 || (9 <= c && c <= 13)
}

pub open spec fn is_digit(c: u8) -> bool {
    48 <= c && c <= 57
}

/// Numbers completed so far, and the one being read, if any.
pub struct Scan {
    pub values: Seq<int>,
    pub cur: Option<int>,
}

pub open spec fn flush(values: Seq<int>, cur: Option<int>) -> Seq<int> {
    match cur {
        Some(v) => values.push(v),
        None => values,
    }
}

/// Reads `b` left to right; `None` once a byte is neither whitespace nor a
/// digit, or a number exceeds `limit`.
pub open spec fn scan(b: Seq<u8>, limit: int) -> Option<Scan>
    decreases b.len(),
{
    if b.len() == 0 {
        Some(Scan { values: Seq::empty(), cur: None })
    } else {
        match scan(b.drop_last(), limit) {
            None => None,
            Some(s) => {
                let c = b.last();
                if is_space(c) {
                    Some(Scan { values: flush(s.values, s.cur), cur: None })
                } else if is_digit(c) {
                    let v = match s.cur {
                        Some(v) => v * 10 + (c - 48),
                        None => c - 48,
                    };
                    if v > limit {
                        None
                    } else {
                        Some(Scan { values: s.values, cur: Some(v) })
                    }
                } else {
                    None
                }
            },
        }
    }
}

/// The numbers of a whitespace-separated list, each at most `limit`.
pub open spec fn numbers_of(b: Seq<u8>, limit: int) -> Option<Seq<int>> {
    match scan(b, limit) {
        Some(s) => Some(flush(s.values, s.cur)),
        None => None,
    }
}

/// Compares two byte strings.
pub fn bytes_eq(a: &[u8], b: &[u8]) -> (r: bool)
    ensures
        r == (a@ == b@),
{
    if a.len() != b.len() {
        return false;
    }
    let mut i: usize = 0;
    while i < a.len()
        invariant
            a.len() == b.len(),
            i <= a.len(),
            a@.subrange(0, i as int) == b@.subrange(0, i as int),
        decreases a.len() - i,
    {
        if a[i] != b[i] {
            assert(a@.subrange(0, i as int + 1)[i as int] != b@.subrange(0, i as int + 1)[i as int]);
            return false;
        }
        assert(a@.subrange(0, i as int + 1) =~= a@.subrange(0, i as int).push(a[i as int]));
        assert(b@.subrange(0, i as int + 1) =~= b@.subrange(0, i as int).push(b[i as int]));
        i = i + 1;
    }
    assert(a@ =~= a@.subrange(0, a.len() as int));
    assert(b@ =~= b@.subrange(0, b.len() as int));
    true
}

/// Every number of a parsed list is within the limit.
pub proof fn lemma_numbers_bounded(b: Seq<u8>, limit: int, k: int)
    requires
        numbers_of(b, limit) matches Some(ns) && 0 <= k < ns.len(),
        limit >= 0,
    ensures
        numbers_of(b, limit) matches Some(ns) && 0 <= ns[k] <= limit,
{
    lemma_scan_bounded(b, limit);
}

proof fn lemma_scan_bounded(b: Seq<u8>, limit: int)
    requires
        limit >= 0,
    ensures
        scan(b, limit) matches Some(s) ==> (forall|k: int|
            0 <= k < s.values.len() ==> 0 <= #[trigger] s.values[k] <= limit) && (s.cur matches Some(v)
            ==> 0 <= v <= limit),
    decreases b.len(),
{
    if b.len() > 0 {
        lemma_scan_bounded(b.drop_last(), limit);
    }
}

/// Once the scan of a prefix fails, the scan of the whole fails.
proof fn lemma_scan_fails_onward(b: Seq<u8>, k: int, limit: int)
    requires
        0 <= k <= b.len(),
        scan(b.subrange(0, k), limit) is None,
    ensures
        scan(b, limit) is None,
    decreases b.len() - k,
{
    if k < b.len() {
        let next = b.subrange(0, k + 1);
        assert(next.drop_last() =~= b.subrange(0, k));
        lemma_scan_fails_onward(b, k + 1, limit);
    } else {
        assert(b.subrange(0, k) =~= b);
    }
}

/// Parses a whitespace-separated list of unsigned decimal numbers, each at
/// most `limit`. Gives `None` on any other byte or on a larger number.
pub fn parse_list(text: &str, limit: u64) -> (r: Option<Vec<u64>>)
    ensures
        match numbers_of(text.spec_bytes(), limit as int) {
            Some(ns) => r matches Some(v) && v@.len() == ns.len() && forall|i: int|
                0 <= i < ns.len() ==> v@[i] == ns[i],
            None => r is None,
        },
{
    let b = text.as_bytes();
    let ghost bs = b@;
    assert(bs == text.spec_bytes());
    let mut values: Vec<u64> = Vec::new();
    let mut cur: Option<u64> = None;
    let mut i: usize = 0;
    while i < b.len()
        invariant
            b@ == bs,
            bs == text.spec_bytes(),
            i <= b.len(),
            scan(bs.subrange(0, i as int), limit as int) matches Some(s) && values@.len()
                == s.values.len() && (forall|k: int|
                0 <= k < s.values.len() ==> values@[k] == s.values[k]) && (match s.cur {
                Some(v) => cur == Some(v as u64) && 0 <= v <= limit,
                None => cur is None,
            }),
        decreases b.len() - i,
    {
        let c = b[i];
        let ghost pre = bs.subrange(0, i as int);
        let ghost next = bs.subrange(0, i as int + 1);
        assert(next.drop_last() =~= pre);
        assert(next.last() == c);
        if c == 32 || (9 <= c && c <= 13) {
            match cur {
                Some(v) => {
                    values.push(v);
                },
                None => {},
            }
            cur = None;
        } else if 48 <= c && c <= 57 {
            let d: u64 = (c - 48) as u64;
            if d > limit {
                proof {
                    lemma_scan_fails_onward(bs, i as int + 1, limit as int);
                }
                return None;
            }
            match cur {
                Some(v) => {
                    if v > (limit - d) / 10 {
                        proof {
                            assert(v * 10 + d > limit) by (nonlinear_arith)
                                requires
                                    v > (limit - d) / 10,
                                    d <= limit,
                            ;
                            lemma_scan_fails_onward(bs, i as int + 1, limit as int);
                        }
                        return None;
                    }
                    assert(v * 10 + d <= limit) by (nonlinear_arith)
                        requires
                            v <= (limit - d) / 10,
                            d <= limit,
                    ;
                    cur = Some(v * 10 + d);
                },
                None => {
                    cur = Some(d);
                },
            }
        } else {
            proof {
                lemma_scan_fails_onward(bs, i as int + 1, limit as int);
            }
            return None;
        }
        i = i + 1;
    }
    assert(bs.subrange(0, b.len() as int) =~= bs);
    match cur {
        Some(v) => {
            values.push(v);
        },
        None => {},
    }
    Some(values)
}

} // verus!
