//! A key/value configuration read from `key=value` lines.
use vstd::prelude::*;
use vstd::string::StringExecFns;

verus! {

/// The text that the bytes `b` hold as UTF-8, or `None` when they are not
/// valid UTF-8.
pub uninterp spec fn utf8_decode(b: Seq<u8>) -> Option<Seq<char>>;

/// Whether `c` has the Unicode `White_Space` property.
pub open spec fn is_white_space(c: char) -> bool {
    ('\u{9}' <= c && c <= '\u{d}') || c == ' ' || c == '\u{85}' || c == '\u{a0}' || c == '\u{1680}'
        || ('\u{2000}' <= c && c <= '\u{200a}') || c == '\u{2028}' || c == '\u{2029}' || c
        == '\u{202f}' || c == '\u{205f}' || c == '\u{3000}'
}

/// `s` without its leading white space.
pub open spec fn trim_start_spec(s: Seq<char>) -> Seq<char>
    decreases s.len(),
{
    if s.len() > 0 && is_white_space(s[0]) {
        trim_start_spec(s.drop_first())
    } else {
        s
    }
}

/// `s` without its trailing white space.
pub open spec fn trim_end_spec(s: Seq<char>) -> Seq<char>
    decreases s.len(),
{
    if s.len() > 0 && is_white_space(s.last()) {
        trim_end_spec(s.drop_last())
    } else {
        s
    }
}

/// `s` without its leading and trailing white space.
pub open spec fn trim_of(s: Seq<char>) -> Seq<char> {
    trim_end_spec(trim_start_spec(s))
}

/// Relies on `std::str::from_utf8`: the text, when the bytes are valid UTF-8.
#[verifier::external_body]
pub(crate) fn utf8_string(b: &[u8]) -> (r: Option<String>)
    ensures
        r matches Some(s) ==> utf8_decode(b@) == Some(s@),
        r is None ==> utf8_decode(b@) is None,
{
    match std::str::from_utf8(b) {
        Ok(s) => Some(s.to_string()),
        Err(_) => None,
    }
}

/// Relies on `str::trim`: characters with the `White_Space` property removed
/// at both ends.
#[verifier::external_body]
fn trimmed(s: &String) -> (r: String)
    ensures
        r@ == trim_of(s@),
{
    s.trim().to_string()
}

/// Whether `c` is an ASCII decimal digit.
pub open spec fn is_digit(c: char) -> bool {
    '0' <= c && c <= '9'
}

/// The value of a run of decimal digits.
pub open spec fn digits_value(s: Seq<char>) -> int
    decreases s.len(),
{
    if s.len() == 0 {
        0
    } else {
        digits_value(s.drop_last()) * 10 + (s.last() as int - '0' as int)
    }
}

/// What `str::parse::<i64>` gives: an optional `+` or `-` and then one or
/// more decimal digits whose value fits an `i64`.
pub open spec fn parse_i64_spec(s: Seq<char>) -> Option<i64> {
    let signed = s.len() > 0 && (s[0] == '-' || s[0] == '+');
    let body = if signed {
        s.drop_first()
    } else {
        s
    };
    let v = if signed && s[0] == '-' {
        -digits_value(body)
    } else {
        digits_value(body)
    };
    if body.len() > 0 && (forall|i: int| 0 <= i < body.len() ==> is_digit(#[trigger] body[i]))
        && i64::MIN <= v <= i64::MAX {
        Some(v as i64)
    } else {
        None
    }
}

/// Relies on `str::parse::<i64>` (`FromStr for i64`).
#[verifier::external_body]
fn parse_i64(s: &String) -> (r: Option<i64>)
    ensures
        r == parse_i64_spec(s@),
{
    s.parse::<i64>().ok()
}

/// The position of the first `c` in `b`, or `b.len()` when there is none.
pub open spec fn first_index(b: Seq<u8>, c: u8) -> int {
    if exists|e: int| 0 <= e < b.len() && b[e] == c && forall|t: int| 0 <= t < e ==> b[t] != c {
        choose|e: int| 0 <= e < b.len() && b[e] == c && forall|t: int| 0 <= t < e ==> b[t] != c
    } else {
        b.len() as int
    }
}

/// The position of the last `c` in `b`, if any.
pub open spec fn last_index(b: Seq<u8>, c: u8) -> Option<int> {
    if exists|e: int| 0 <= e < b.len() && b[e] == c && forall|t: int| e < t < b.len() ==> b[t] != c {
        Some(
            choose|e: int|
                0 <= e < b.len() && b[e] == c && forall|t: int| e < t < b.len() ==> b[t] != c,
        )
    } else {
        None
    }
}

/// The entry that one line gives: split at its last `=`, both sides valid
/// UTF-8, and trimmed.
pub open spec fn line_entry(line: Seq<u8>) -> Option<(Seq<char>, Seq<char>)> {
    match last_index(line, 61) {
        Some(e) => match (utf8_decode(line.subrange(0, e)), utf8_decode(
            line.subrange(e + 1, line.len() as int),
        )) {
            (Some(k), Some(v)) => Some((trim_of(k), trim_of(v))),
            _ => None,
        },
        None => None,
    }
}

/// The position of the entry for key `k`, if any.
pub open spec fn key_index(s: Seq<(Seq<char>, Seq<char>)>, k: Seq<char>) -> Option<int> {
    if exists|i: int| 0 <= i < s.len() && s[i].0 == k {
        Some(choose|i: int| 0 <= i < s.len() && s[i].0 == k)
    } else {
        None
    }
}

/// The value stored for `k`, if any.
pub open spec fn lookup(s: Seq<(Seq<char>, Seq<char>)>, k: Seq<char>) -> Option<Seq<char>> {
    match key_index(s, k) {
        Some(i) => Some(s[i].1),
        None => None,
    }
}

/// The entries after storing `v` under `k`: an existing entry is replaced in
/// place, a new one goes last.
pub open spec fn set_spec(s: Seq<(Seq<char>, Seq<char>)>, k: Seq<char>, v: Seq<char>) -> Seq<
    (Seq<char>, Seq<char>),
> {
    match key_index(s, k) {
        Some(i) => s.update(i, (k, v)),
        None => s.push((k, v)),
    }
}

/// The entries after reading the lines of `b` into `s`, first line first.
pub open spec fn parse_spec(s: Seq<(Seq<char>, Seq<char>)>, b: Seq<u8>) -> Seq<
    (Seq<char>, Seq<char>),
>
    decreases b.len(),
{
    if b.len() == 0 {
        s
    } else {
        let e = first_index(b, 10);
        let s2 = match line_entry(b.subrange(0, e)) {
            Some((k, v)) => set_spec(s, k, v),
            None => s,
        };
        if e < b.len() {
            parse_spec(s2, b.subrange(e + 1, b.len() as int))
        } else {
            s2
        }
    }
}

/// The text `to_string` writes: one `key=value` line per entry.
pub open spec fn render(s: Seq<(Seq<char>, Seq<char>)>) -> Seq<char>
    decreases s.len(),
{
    if s.len() == 0 {
        Seq::empty()
    } else {
        render(s.drop_last()) + s.last().0 + seq!['='] + s.last().1 + seq!['\n']
    }
}

/// Keys are unique.
pub open spec fn keys_unique(s: Seq<(Seq<char>, Seq<char>)>) -> bool {
    forall|i: int, j: int| 0 <= i < s.len() && 0 <= j < s.len() && i != j ==> s[i].0 != s[j].0
}

proof fn lemma_first_line(b: Seq<u8>, e: int)
    requires
        0 <= e <= b.len(),
        forall|t: int| 0 <= t < e ==> b[t] != 10,
        e < b.len() ==> b[e] == 10,
    ensures
        first_index(b, 10) == e,
{
    if e < b.len() {
        let k = choose|k: int|
            0 <= k < b.len() && b[k] == 10 && forall|t: int| 0 <= t < k ==> b[t] != 10;
        assert(0 <= e < b.len() && b[e] == 10 && forall|t: int| 0 <= t < e ==> b[t] != 10);
        assert(k == e) by {
            if k > e {
                assert(b[e] != 10);
            }
        }
    } else {
        assert(!exists|k: int|
            0 <= k < b.len() && b[k] == 10 && forall|t: int| 0 <= t < k ==> b[t] != 10);
    }
}

/// Key/value pairs, each key once, in the order in which keys first came.
pub struct KVConfig {
    mp: Vec<(String, String)>,
}

impl View for KVConfig {
    type V = Seq<(Seq<char>, Seq<char>)>;

    closed spec fn view(&self) -> Seq<(Seq<char>, Seq<char>)> {
        self.mp@.map_values(|e: (String, String)| (e.0@, e.1@))
    }
}

impl KVConfig {
    pub open spec fn wf(&self) -> bool {
        keys_unique(self@)
    }

    pub fn new() -> (r: Self)
        ensures
            r.wf(),
            r@ == Seq::<(Seq<char>, Seq<char>)>::empty(),
    {
        let r = KVConfig { mp: Vec::new() };
        assert(r@ =~= Seq::<(Seq<char>, Seq<char>)>::empty());
        r
    }

    /// Reads `key=value` lines; see `parse_spec`.
    pub fn from_bytes(bts: &[u8]) -> (r: Self)
        ensures
            r.wf(),
            r@ == parse_spec(Seq::empty(), bts@),
    {
        let mut kvc = Self::new();
        kvc.parses(bts);
        kvc
    }

    fn find(&self, key: &String) -> (r: Option<usize>)
        requires
            self.wf(),
        ensures
            r matches Some(i) ==> key_index(self@, key@) == Some(i as int) && i < self@.len(),
            r is None ==> key_index(self@, key@) is None,
    {
        let mut i: usize = 0;
        while i < self.mp.len()
            invariant
                self.wf(),
                0 <= i <= self@.len(),
                forall|j: int| 0 <= j < i ==> self@[j].0 != key@,
            decreases self@.len() - i,
        {
            if self.mp[i].0 == *key {
                assert(self@[i as int].0 == key@);
                proof {
                    let k = choose|k: int| 0 <= k < self@.len() && self@[k].0 == key@;
                    assert(k == i);
                }
                return Some(i);
            }
            i = i + 1;
        }
        None
    }

    fn insert(&mut self, key: String, val: String)
        requires
            old(self).wf(),
        ensures
            final(self).wf(),
            final(self)@ == set_spec(old(self)@, key@, val@),
    {
        let ghost kv = key@;
        let ghost vv = val@;
        match self.find(&key) {
            Some(i) => {
                self.mp.set(i, (key, val));
                assert(self@ =~= old(self)@.update(i as int, (kv, vv)));
                assert forall|a: int, b: int|
                    0 <= a < self@.len() && 0 <= b < self@.len() && a != b implies self@[a].0
                    != self@[b].0 by {
                    assert(old(self)@[i as int].0 == kv);
                }
            },
            None => {
                self.mp.push((key, val));
                assert(self@ =~= old(self)@.push((kv, vv)));
                assert forall|a: int, b: int|
                    0 <= a < self@.len() && 0 <= b < self@.len() && a != b implies self@[a].0
                    != self@[b].0 by {
                    if a == old(self)@.len() {
                        assert(!(0 <= b < old(self)@.len() && old(self)@[b].0 == kv));
                    } else if b == old(self)@.len() {
                        assert(!(0 <= a < old(self)@.len() && old(self)@[a].0 == kv));
                    }
                }
            },
        }
    }

    /// The entry of one line, see `line_entry`.
    fn parse_line(line: &[u8]) -> (r: Option<(String, String)>)
        ensures
            r matches Some(p) ==> line_entry(line@) == Some((p.0@, p.1@)),
            r is None ==> line_entry(line@) is None,
    {
        let n = line.len();
        let mut j: usize = n;
        while j > 0 && line[j - 1] != 61u8
            invariant
                0 <= j <= n == line@.len(),
                forall|t: int| j <= t < n ==> line@[t] != 61,
            decreases j,
        {
            j = j - 1;
        }
        if j == 0 {
            return None;
        }
        let e = j - 1;
        assert(line@[e as int] == 61);
        proof {
            let k = choose|k: int|
                0 <= k < line@.len() && line@[k] == 61 && forall|t: int|
                    k < t < line@.len() ==> line@[t] != 61;
            assert(k == e) by {
                if k < e {
                    assert(line@[e as int] != 61);
                } else if k > e {
                    assert(line@[k] != 61);
                }
            }
        }
        let (head, rest) = line.split_at(e);
        let (_, tail) = rest.split_at(1);
        assert(tail@ =~= line@.subrange(e + 1, n as int));
        match (utf8_string(head), utf8_string(tail)) {
            (Some(k), Some(v)) => Some((trimmed(&k), trimmed(&v))),
            _ => None,
        }
    }

    fn parses(&mut self, bts: &[u8])
        requires
            old(self).wf(),
        ensures
            final(self).wf(),
            final(self)@ == parse_spec(old(self)@, bts@),
    {
        let n = bts.len();
        let mut start: usize = 0;
        let mut i: usize = 0;
        assert(bts@.subrange(0, n as int) =~= bts@);
        while i < n
            invariant
                self.wf(),
                0 <= start <= i <= n == bts@.len(),
                i == n ==> start == n,
                forall|t: int| start <= t < i ==> bts@[t] != 10,
                parse_spec(self@, bts@.subrange(start as int, n as int)) == parse_spec(old(self)@, bts@),
            decreases n - i,
        {
            if bts[i] == 10u8 || i == n - 1 {
                let end = if bts[i] == 10u8 {
                    i
                } else {
                    n
                };
                let ghost rest = bts@.subrange(start as int, n as int);
                let ghost e = (end - start) as int;
                proof {
                    assert forall|t: int| 0 <= t < e implies rest[t] != 10 by {
                        assert(rest[t] == bts@[start + t]);
                    }
                    lemma_first_line(rest, e);
                }
                let (_, tail) = bts.split_at(start);
                let (line, _) = tail.split_at(end - start);
                assert(line@ =~= rest.subrange(0, e));
                match Self::parse_line(line) {
                    Some((k, v)) => self.insert(k, v),
                    None => {},
                }
                if end < n {
                    assert(bts@.subrange(end + 1, n as int) =~= rest.subrange(e + 1, rest.len() as int));
                    start = end + 1;
                } else {
                    start = n;
                    assert(bts@.subrange(n as int, n as int).len() == 0);
                }
            }
            i = i + 1;
        }
        assert(bts@.subrange(start as int, n as int).len() == 0);
    }

    /// The value stored for `key`.
    pub fn get(&self, key: &str) -> (r: Option<&String>)
        requires
            self.wf(),
        ensures
            r matches Some(v) ==> lookup(self@, key@) == Some(v@),
            r is None ==> lookup(self@, key@) is None,
    {
        let k = String::from_str(key);
        match self.find(&k) {
            Some(i) => Some(&self.mp[i].1),
            None => None,
        }
    }

    /// The value stored for `key`, read as an `i64`.
    pub fn geti(&self, key: &str) -> (r: Option<i64>)
        requires
            self.wf(),
        ensures
            lookup(self@, key@) is None ==> r is None,
            lookup(self@, key@) matches Some(v) ==> r == parse_i64_spec(v),
    {
        match self.get(key) {
            None => None,
            Some(v) => parse_i64(v),
        }
    }

    /// Stores `val` under `key`, replacing an earlier value.
    pub fn set(&mut self, key: &str, val: &str)
        requires
            old(self).wf(),
        ensures
            final(self).wf(),
            final(self)@ == set_spec(old(self)@, key@, val@),
    {
        self.insert(String::from_str(key), String::from_str(val));
    }

    /// Copies of the entries, in order.
    pub fn iter(&self) -> (r: Vec<(String, String)>)
        ensures
            r@.map_values(|e: (String, String)| (e.0@, e.1@)) == self@,
    {
        let mut out: Vec<(String, String)> = Vec::new();
        let mut i: usize = 0;
        while i < self.mp.len()
            invariant
                0 <= i <= self@.len(),
                out@.map_values(|e: (String, String)| (e.0@, e.1@)) == self@.subrange(0, i as int),
            decreases self@.len() - i,
        {
            let k = self.mp[i].0.clone();
            let v = self.mp[i].1.clone();
            assert(k@ == self@[i as int].0 && v@ == self@[i as int].1);
            let ghost before = out@;
            out.push((k, v));
            assert(out@ == before.push((k, v)));
            assert(out@.map_values(|e: (String, String)| (e.0@, e.1@)) =~= before.map_values(
                |e: (String, String)| (e.0@, e.1@),
            ).push((k@, v@)));
            assert(self@.subrange(0, i + 1) =~= self@.subrange(0, i as int).push(self@[i as int]));
            i = i + 1;
        }
        assert(self@.subrange(0, self@.len() as int) =~= self@);
        out
    }

    /// One `key=value` line per entry, in order.
    pub fn to_string(&self) -> (r: String)
        ensures
            r@ == render(self@),
    {
        let eq = "=";
        let nl = "\n";
        proof {
            reveal_strlit("=");
            reveal_strlit("\n");
        }
        let mut cont = String::new();
        let mut i: usize = 0;
        while i < self.mp.len()
            invariant
                0 <= i <= self@.len(),
                eq@ == seq!['='],
                nl@ == seq!['\n'],
                cont@ == render(self@.subrange(0, i as int)),
            decreases self@.len() - i,
        {
            cont.append(self.mp[i].0.as_str());
            cont.append(eq);
            cont.append(self.mp[i].1.as_str());
            cont.append(nl);
            assert(self@.subrange(0, i + 1).drop_last() =~= self@.subrange(0, i as int));
            i = i + 1;
        }
        assert(self@.subrange(0, self@.len() as int) =~= self@);
        cont
    }
}

} // verus!
