//! Naming and choosing the segment files of a data directory.
//!
//! A segment of generation `n` is the file `<n>.log`. When a directory holds
//! several (an interrupted compaction leaves two), the lowest generation is
//! the one to open and the others are deleted.
use crate::codec::utf8_to_string;
use vstd::prelude::*;
use vstd::string::StrSliceExecFns;
use vstd::utf8::*;

verus! {

broadcast use group_utf8_lib;

/// Declares `std::path::PathBuf`, handled opaquely.
#[verifier::external_type_specification]
#[verifier::external_body]
pub struct ExPathBuf(std::path::PathBuf);

pub open spec fn is_digit(c: char) -> bool {
    '0' <= c <= '9'
}

pub open spec fn digit_value(c: char) -> nat {
    (c as u32 - '0' as u32) as nat
}

/// The number that the decimal digits `s` spell.
pub open spec fn digits_value(s: Seq<char>) -> nat
    decreases s.len(),
{
    if s.len() == 0 {
        0
    } else {
        digits_value(s.drop_last()) * 10 + digit_value(s.last())
    }
}

pub open spec fn all_digits(s: Seq<char>) -> bool {
    forall|i: int| 0 <= i < s.len() ==> is_digit(#[trigger] s[i])
}

/// The `u64` that `s` spells the way `u64::from_str` reads it: an optional
/// `+`, then one or more decimal digits.
pub open spec fn parse_u64(s: Seq<char>) -> Option<u64> {
    let d = if s.len() > 0 && s[0] == '+' {
        s.drop_first()
    } else {
        s
    };
    if d.len() > 0 && all_digits(d) && digits_value(d) <= u64::MAX {
        Some(digits_value(d) as u64)
    } else {
        None
    }
}

pub open spec fn has_log_suffix(name: Seq<char>) -> bool {
    &&& name.len() >= 4
    &&& name[name.len() - 4] == '.'
    &&& name[name.len() - 3] == 'l'
    &&& name[name.len() - 2] == 'o'
    &&& name[name.len() - 1] == 'g'
}

/// The generation of the segment file called `name`: `None` unless `name`
/// ends in `.log` and what precedes that reads as a `u64`.
pub open spec fn generation_of(name: Seq<char>) -> Option<u64> {
    if has_log_suffix(name) {
        parse_u64(name.subrange(0, name.len() - 4))
    } else {
        None
    }
}

/// The shortest decimal spelling of `n`.
pub open spec fn decimal(n: nat) -> Seq<char>
    decreases n,
{
    if n < 10 {
        seq![digit_char(n)]
    } else {
        decimal(n / 10).push(digit_char(n % 10))
    }
}

pub open spec fn digit_char(d: nat) -> char {
    seq!['0', '1', '2', '3', '4', '5', '6', '7', '8', '9'][d as int]
}

/// The file name of the segment of generation `id`.
pub open spec fn log_file_name(id: nat) -> Seq<char> {
    decimal(id) + seq!['.', 'l', 'o', 'g']
}

proof fn lemma_digit_char(d: nat)
    requires
        d < 10,
    ensures
        is_digit(digit_char(d)),
        digit_value(digit_char(d)) == d,
{
    let t = seq!['0', '1', '2', '3', '4', '5', '6', '7', '8', '9'];
    assert(t[0] == '0' && t[1] == '1' && t[2] == '2' && t[3] == '3' && t[4] == '4');
    assert(t[5] == '5' && t[6] == '6' && t[7] == '7' && t[8] == '8' && t[9] == '9');
}

proof fn lemma_decimal(n: nat)
    ensures
        decimal(n).len() >= 1,
        all_digits(decimal(n)),
        digits_value(decimal(n)) == n,
        decimal(n)[0] != '+',
    decreases n,
{
    lemma_digit_char(n % 10);
    if n < 10 {
        lemma_digit_char(n);
        assert(decimal(n).drop_last() =~= Seq::<char>::empty());
        assert(digits_value(Seq::<char>::empty()) == 0);
        assert(decimal(n).last() == digit_char(n));
        assert(digits_value(decimal(n)) == digits_value(decimal(n).drop_last()) * 10 + digit_value(decimal(n).last()));
    } else {
        lemma_decimal(n / 10);
        let d = decimal(n);
        assert(d.drop_last() =~= decimal(n / 10));
        assert(d.last() == digit_char(n % 10));
        assert((n / 10) * 10 + n % 10 == n);
        assert(digits_value(d) == digits_value(d.drop_last()) * 10 + digit_value(d.last()));
        assert forall|i: int| 0 <= i < d.len() implies is_digit(#[trigger] d[i]) by {
            if i < d.len() - 1 {
                assert(d[i] == decimal(n / 10)[i]);
            }
        }
    }
}

/// Reading back the name of the segment of generation `id` gives `id`.
pub proof fn lemma_generation_of_name(id: u64)
    ensures
        generation_of(log_file_name(id as nat)) == Some(id),
{
    lemma_decimal(id as nat);
    let name = log_file_name(id as nat);
    assert(name.subrange(0, name.len() - 4) =~= decimal(id as nat));
}

proof fn lemma_digits_prefix(s: Seq<char>, j: int)
    requires
        0 <= j <= s.len(),
        all_digits(s),
    ensures
        digits_value(s.take(j)) <= digits_value(s),
    decreases s.len(),
{
    if j < s.len() {
        assert(s.drop_last().take(j) =~= s.take(j));
        lemma_digits_prefix(s.drop_last(), j);
    } else {
        assert(s.take(j) =~= s);
    }
}

fn digit_to_char(d: u64) -> (c: char)
    requires
        d < 10,
    ensures
        c == digit_char(d as nat),
{
    match d {
        0 => '0',
        1 => '1',
        2 => '2',
        3 => '3',
        4 => '4',
        5 => '5',
        6 => '6',
        7 => '7',
        8 => '8',
        _ => '9',
    }
}

/// The file name `<id>.log` of the segment of generation `id`.
pub fn log_file_name_of(id: u64) -> (r: String)
    ensures
        r@ == log_file_name(id as nat),
{
    let mut digits: Vec<u8> = Vec::new();
    let mut n = id;
    let ghost mut tail: Seq<char> = Seq::empty();
    // Digits come out least significant first; `tail` is what they spell.
    while n >= 10
        invariant
            decimal(id as nat) == decimal(n as nat) + tail,
            digits@.len() == tail.len(),
            forall|i: int|
                0 <= i < tail.len() ==> #[trigger] digits@[i] == tail[tail.len() - 1 - i] as u8,
            forall|i: int| 0 <= i < tail.len() ==> is_digit(#[trigger] tail[i]),
        decreases n,
    {
        let c = digit_to_char(n % 10);
        proof {
            assert(decimal(n as nat) == decimal((n / 10) as nat).push(c));
            assert(decimal(id as nat) =~= decimal((n / 10) as nat) + (seq![c] + tail));
            tail = seq![c] + tail;
        }
        digits.push(c as u8);
        n = n / 10;
    }
    let c = digit_to_char(n);
    proof {
        tail = seq![c] + tail;
    }
    digits.push(c as u8);
    let mut bytes: Vec<u8> = Vec::new();
    let mut i: usize = digits.len();
    while i > 0
        invariant
            i <= digits@.len(),
            digits@.len() == tail.len(),
            forall|j: int|
                0 <= j < tail.len() ==> #[trigger] digits@[j] == tail[tail.len() - 1 - j] as u8,
            bytes@.len() == digits@.len() - i,
            forall|j: int| 0 <= j < bytes@.len() ==> #[trigger] bytes@[j] == tail[j] as u8,
        decreases i,
    {
        i = i - 1;
        bytes.push(digits[i]);
    }
    bytes.push(46u8);
    bytes.push(108u8);
    bytes.push(111u8);
    bytes.push(103u8);
    let ghost name = tail + seq!['.', 'l', 'o', 'g'];
    proof {
        assert(tail == decimal(id as nat));
        assert(is_ascii_chars(name)) by {
            assert forall|j: int| 0 <= j < name.len() implies '\0' <= #[trigger] name[j] <= '\u{7f}' by {
                if j < tail.len() {
                    assert(is_digit(tail[j]));
                }
            }
        }
        assert(bytes@ =~= encode_utf8(name)) by {
            assert forall|j: int| 0 <= j < name.len() implies bytes@[j] == #[trigger] encode_utf8(name)[j] by {
                assert(name[j] as u8 == encode_utf8(name)[j]);
            }
        }
    }
    match utf8_to_string(bytes) {
        Some(s) => s,
        None => {
            proof {
                assert(false);
            }
            String::new()
        },
    }
}

/// Relies on `Path::join`: the path of the entry `name` inside the directory `dir`.
#[verifier::external_body]
fn join_path(dir: &std::path::PathBuf, name: &str) -> std::path::PathBuf {
    dir.join(name)
}

/// The path of the segment of generation `file_id` inside the directory `path`.
pub fn log_path(path: &std::path::PathBuf, file_id: u64) -> std::path::PathBuf {
    let name = log_file_name_of(file_id);
    join_path(path, name.as_str())
}

fn parse_digits(name: &str, start: usize, end: usize) -> (r: Option<u64>)
    requires
        start <= end <= name@.len(),
    ensures
        ({
            let d = name@.subrange(start as int, end as int);
            r == if all_digits(d) && digits_value(d) <= u64::MAX {
                Some(digits_value(d) as u64)
            } else {
                None
            }
        }),
{
    let ghost d = name@.subrange(start as int, end as int);
    let mut value: u64 = 0;
    let mut i: usize = start;
    proof {
        assert(d.take(0) =~= Seq::<char>::empty());
    }
    while i < end
        invariant
            start <= i <= end,
            end <= name@.len(),
            d == name@.subrange(start as int, end as int),
            all_digits(d.take(i - start)),
            value == digits_value(d.take(i - start)),
        decreases end - i,
    {
        let c = name.get_char(i);
        let ghost j = i - start;
        proof {
            assert(c == d[j]);
            assert(d.take(j + 1).drop_last() =~= d.take(j));
            assert(d.take(j + 1).last() == c);
        }
        if c < '0' || c > '9' {
            proof {
                assert(!is_digit(d[j]));
            }
            return None;
        }
        let digit = (c as u32 - '0' as u32) as u64;
        if value > (u64::MAX - digit) / 10 {
            proof {
                assert(value * 10 + digit > u64::MAX) by (nonlinear_arith)
                    requires
                        value > (u64::MAX - digit) / 10,
                        digit < 10,
                ;
                if all_digits(d) {
                    lemma_digits_prefix(d, j + 1);
                }
            }
            return None;
        }
        value = value * 10 + digit;
        i = i + 1;
        proof {
            assert forall|t: int| 0 <= t < j + 1 implies is_digit(#[trigger] d.take(j + 1)[t]) by {
                if t < j {
                    assert(d.take(j + 1)[t] == d.take(j)[t]);
                }
            }
        }
    }
    proof {
        assert(d.take(end - start) =~= d);
    }
    Some(value)
}

/// The generation of the segment file called `name`; `None` where `name`
/// is not the name of a segment.
pub fn generation_of_name(name: &str) -> (r: Option<u64>)
    ensures
        r == generation_of(name@),
{
    let n = name.unicode_len();
    if n < 4 {
        return None;
    }
    if name.get_char(n - 4) != '.' || name.get_char(n - 3) != 'l' || name.get_char(n - 2) != 'o'
        || name.get_char(n - 1) != 'g' {
        return None;
    }
    let end = n - 4;
    let ghost stem = name@.subrange(0, end as int);
    let mut start: usize = 0;
    if end > 0 && name.get_char(0) == '+' {
        start = 1;
    }
    proof {
        if start == 1 {
            assert(name@.subrange(1, end as int) =~= stem.drop_first());
        } else {
            assert(name@.subrange(0, end as int) =~= stem);
        }
    }
    if start == end {
        return None;
    }
    parse_digits(name, start, end)
}

/// What to do with the segment files found in a data directory.
pub struct SegmentPlan {
    /// The generation of the segment to open.
    pub keep: u64,
    /// Whether that segment must be created first: the directory held none.
    pub create: bool,
    /// The generations of the segment files to delete.
    pub remove: Vec<u64>,
}

/// The generations of the segment files among the file names `names`.
pub open spec fn generations(names: Seq<String>) -> Set<u64> {
    Set::new(
        |id: u64| exists|i: int| 0 <= i < names.len() && generation_of(#[trigger] names[i]@) == Some(id),
    )
}

/// Chooses the segment to open among the files of a data directory, given
/// their names: the lowest generation found, the others to be deleted; with
/// no segment at all, generation 0, to be created.
pub fn get_logfile(names: &Vec<String>) -> (r: SegmentPlan)
    ensures
        generations(names@).is_empty() ==> r.keep == 0 && r.create && r.remove@.len() == 0,
        !generations(names@).is_empty() ==> {
            &&& !r.create
            &&& generations(names@).contains(r.keep)
            &&& forall|id: u64| generations(names@).contains(id) ==> r.keep <= id
            &&& r.remove@.no_duplicates()
            &&& forall|id: u64| r.remove@.contains(id) <==> generations(names@).contains(id) && id != r.keep
        },
{
    let mut ids: Vec<u64> = Vec::new();
    let mut i: usize = 0;
    while i < names.len()
        invariant
            i <= names@.len(),
            ids@.no_duplicates(),
            forall|id: u64| ids@.contains(id) <==> generations(names@.take(i as int)).contains(id),
        decreases names@.len() - i,
    {
        let found = generation_of_name(names[i].as_str());
        proof {
            let a = names@.take(i + 1);
            let b = names@.take(i as int);
            assert forall|id: u64| generations(a).contains(id) <==> (generations(b).contains(id)
                || found == Some(id)) by {
                if generations(a).contains(id) {
                    let j = choose|j: int| 0 <= j < a.len() && generation_of(#[trigger] a[j]@) == Some(id);
                    if j < i {
                        assert(b[j] == a[j]);
                    }
                }
                if generations(b).contains(id) {
                    let j = choose|j: int| 0 <= j < b.len() && generation_of(#[trigger] b[j]@) == Some(id);
                    assert(b[j] == a[j]);
                }
                if found == Some(id) {
                    assert(a[i as int] == names@[i as int]);
                }
            }
        }
        let ghost before = ids@;
        match found {
            Some(id) => {
                if !contains_id(&ids, id) {
                    proof {
                        lemma_push_contains(ids@, id);
                    }
                    ids.push(id);
                }
            },
            None => {},
        }
        proof {
            assert forall|x: u64| ids@.contains(x) <==> (before.contains(x) || found == Some(x)) by {}
            assert forall|x: u64| ids@.contains(x) <==> generations(names@.take(i + 1)).contains(x) by {
                let a = names@.take(i + 1);
                let b = names@.take(i as int);
                assert(generations(a).contains(x) <==> (generations(b).contains(x) || found == Some(x)));
                assert(before.contains(x) <==> generations(b).contains(x));
            }
        }
        i = i + 1;
    }
    proof {
        assert(names@.take(names@.len() as int) =~= names@);
    }
    if ids.len() == 0 {
        proof {
            assert forall|id: u64| !generations(names@).contains(id) by {
                assert(!ids@.contains(id));
            }
            assert(generations(names@) =~= Set::<u64>::empty());
        }
        return SegmentPlan { keep: 0, create: true, remove: Vec::new() };
    }
    let mut low: usize = 0;
    let mut j: usize = 1;
    while j < ids.len()
        invariant
            low < ids@.len(),
            j <= ids@.len(),
            forall|t: int| 0 <= t < j ==> ids@[low as int] <= #[trigger] ids@[t],
        decreases ids@.len() - j,
    {
        if ids[j] < ids[low] {
            low = j;
        }
        j = j + 1;
    }
    let keep = ids[low];
    let mut remove: Vec<u64> = Vec::new();
    let mut t: usize = 0;
    while t < ids.len()
        invariant
            t <= ids@.len(),
            ids@.no_duplicates(),
            keep == ids@[low as int],
            low < ids@.len(),
            remove@.no_duplicates(),
            forall|id: u64| remove@.contains(id) <==> (ids@.take(t as int).contains(id) && id != keep),
        decreases ids@.len() - t,
    {
        proof {
            let a = ids@.take(t + 1);
            let b = ids@.take(t as int);
            assert forall|id: u64| a.contains(id) <==> (b.contains(id) || id == ids@[t as int]) by {
                if a.contains(id) {
                    let u = choose|u: int| 0 <= u < a.len() && a[u] == id;
                    if u < t {
                        assert(b[u] == id);
                    }
                }
                if b.contains(id) {
                    let u = choose|u: int| 0 <= u < b.len() && b[u] == id;
                    assert(a[u] == id);
                }
                if id == ids@[t as int] {
                    assert(a[t as int] == id);
                }
            }
            if t != low {
                assert(!b.contains(ids@[t as int])) by {
                    if b.contains(ids@[t as int]) {
                        let u = choose|u: int| 0 <= u < b.len() && b[u] == ids@[t as int];
                        assert(ids@[u] == ids@[t as int]);
                    }
                }
            }
        }
        let ghost before = remove@;
        if t != low {
            proof {
                lemma_push_contains(remove@, ids@[t as int]);
            }
            remove.push(ids[t]);
        }
        proof {
            assert forall|x: u64| remove@.contains(x) <==> (before.contains(x) || (t != low && x
                == ids@[t as int])) by {}
            assert(ids@[t as int] == keep ==> t == low);
            assert forall|x: u64| remove@.contains(x) <==> (ids@.take(t + 1).contains(x) && x != keep) by {
                let a = ids@.take(t + 1);
                let b = ids@.take(t as int);
                assert(a.contains(x) <==> (b.contains(x) || x == ids@[t as int]));
                assert(before.contains(x) <==> (b.contains(x) && x != keep));
            }
        }
        t = t + 1;
    }
    proof {
        assert(ids@.take(ids@.len() as int) =~= ids@);
        assert(ids@.contains(keep));
        assert forall|id: u64| generations(names@).contains(id) implies keep <= id by {
            assert(ids@.contains(id));
            let u = choose|u: int| 0 <= u < ids@.len() && ids@[u] == id;
            assert(ids@[low as int] <= ids@[u]);
        }
        assert forall|a: u64| remove@.contains(a) <==> generations(names@).contains(a) && a != keep by {}
    }
    SegmentPlan { keep, create: false, remove }
}

proof fn lemma_push_contains(s: Seq<u64>, v: u64)
    ensures
        forall|x: u64| s.push(v).contains(x) <==> (s.contains(x) || x == v),
        s.no_duplicates() && !s.contains(v) ==> s.push(v).no_duplicates(),
{
    let t = s.push(v);
    assert forall|x: u64| t.contains(x) <==> (s.contains(x) || x == v) by {
        if t.contains(x) {
            let j = choose|j: int| 0 <= j < t.len() && t[j] == x;
            if j < s.len() {
                assert(s[j] == x);
            }
        }
        if s.contains(x) {
            let j = choose|j: int| 0 <= j < s.len() && s[j] == x;
            assert(t[j] == x);
        }
        if x == v {
            assert(t[s.len() as int] == x);
        }
    }
    if s.no_duplicates() && !s.contains(v) {
        assert forall|a: int, b: int| 0 <= a < t.len() && 0 <= b < t.len() && a != b implies t[a] != t[b] by {
            if a < s.len() && b < s.len() {
                assert(t[a] == s[a] && t[b] == s[b]);
            } else if a < s.len() {
                assert(s.contains(t[a]));
            } else {
                assert(s.contains(t[b]));
            }
        }
    }
}

fn contains_id(ids: &Vec<u64>, id: u64) -> (r: bool)
    ensures
        r == ids@.contains(id),
{
    let mut i: usize = 0;
    while i < ids.len()
        invariant
            i <= ids@.len(),
            forall|j: int| 0 <= j < i ==> ids@[j] != id,
        decreases ids@.len() - i,
    {
        if ids[i] == id {
            return true;
        }
        i = i + 1;
    }
    false
}

} // verus!
