//! The checksum cache: a table from source path to content digest.
use vstd::prelude::*;
use vstd::string::StringExecFns;
use sha2::Digest;
use vstd::string::StrSliceExecFns;
use crate::yaml::{TableDocument, YamlNode, emit_table_document, parse_yaml, table_document_view, yaml_nodes_of, yaml_text_of};

verus! {

/// The table that a list of records denotes: a later record for a key overrides an earlier one.
pub open spec fn map_of_records(s: Seq<(Seq<char>, Seq<char>)>) -> Map<Seq<char>, Seq<char>>
    decreases s.len(),
{
    if s.len() == 0 {
        Map::empty()
    } else {
        map_of_records(s.drop_last()).insert(s.last().0, s.last().1)
    }
}

/// No two records name the same source.
pub open spec fn keys_unique(s: Seq<(Seq<char>, Seq<char>)>) -> bool {
    forall|i: int, j: int| 0 <= i < j < s.len() ==> s[i].0 != s[j].0
}

/// The plain view of a list of string pairs.
pub open spec fn pairs_view(v: Seq<(String, String)>) -> Seq<(Seq<char>, Seq<char>)> {
    v.map_values(|p: (String, String)| (p.0@, p.1@))
}

/// An asset is dirty when no digest is stored for its source, or the stored one differs.
pub open spec fn dirty(cache: Map<Seq<char>, Seq<char>>, source: Seq<char>, digest: Seq<char>) -> bool {
    !cache.contains_key(source) || cache[source] != digest
}

proof fn lemma_map_of_has_record(s: Seq<(Seq<char>, Seq<char>)>, i: int)
    requires
        keys_unique(s),
        0 <= i < s.len(),
    ensures
        map_of_records(s).contains_key(s[i].0),
        map_of_records(s)[s[i].0] == s[i].1,
    decreases s.len(),
{
    if i < s.len() - 1 {
        lemma_map_of_has_record(s.drop_last(), i);
    }
}

proof fn lemma_map_of_keys(s: Seq<(Seq<char>, Seq<char>)>, k: Seq<char>)
    ensures
        map_of_records(s).contains_key(k) <==> exists|i: int| 0 <= i < s.len() && s[i].0 == k,
    decreases s.len(),
{
    if s.len() > 0 {
        lemma_map_of_keys(s.drop_last(), k);
        if map_of_records(s).contains_key(k) && k != s.last().0 {
            let i = choose|i: int| 0 <= i < s.len() - 1 && s.drop_last()[i].0 == k;
            assert(s[i].0 == k);
        }
        if exists|i: int| 0 <= i < s.len() && s[i].0 == k {
            let i = choose|i: int| 0 <= i < s.len() && s[i].0 == k;
            if i < s.len() - 1 {
                assert(s.drop_last()[i].0 == k);
            }
        }
    }
}

proof fn lemma_map_of_update(s: Seq<(Seq<char>, Seq<char>)>, i: int, v: Seq<char>)
    requires
        keys_unique(s),
        0 <= i < s.len(),
    ensures
        keys_unique(s.update(i, (s[i].0, v))),
        map_of_records(s.update(i, (s[i].0, v))) == map_of_records(s).insert(s[i].0, v),
{
    let t = s.update(i, (s[i].0, v));
    let m = map_of_records(t);
    let n = map_of_records(s).insert(s[i].0, v);
    assert(keys_unique(t));
    assert forall|k: Seq<char>| m.contains_key(k) == n.contains_key(k) by {
        lemma_map_of_keys(s, k);
        lemma_map_of_keys(t, k);
        if exists|j: int| 0 <= j < s.len() && s[j].0 == k {
            let j = choose|j: int| 0 <= j < s.len() && s[j].0 == k;
            assert(t[j].0 == k);
        }
        if exists|j: int| 0 <= j < t.len() && t[j].0 == k {
            let j = choose|j: int| 0 <= j < t.len() && t[j].0 == k;
            assert(s[j].0 == k);
        }
    }
    assert forall|k: Seq<char>| #[trigger] m.contains_key(k) implies m[k] == n[k] by {
        lemma_map_of_keys(t, k);
        let j = choose|j: int| 0 <= j < t.len() && t[j].0 == k;
        lemma_map_of_has_record(t, j);
        if j != i {
            lemma_map_of_has_record(s, j);
        }
    }
    assert(m =~= n);
}

/// The SHA-256 digest of a byte sequence.
pub uninterp spec fn sha256_of(data: Seq<u8>) -> Seq<u8>;

/// Relies on sha2's `Sha256::digest`: the 32-byte SHA-256 digest of `data`.
#[verifier::external_body]
fn sha256(data: &[u8]) -> (r: Vec<u8>)
    ensures
        r@ == sha256_of(data@),
        r@.len() == 32,
{
    sha2::Sha256::digest(data).to_vec()
}

/// The lowercase hexadecimal digit of a value below 16.
pub open spec fn hex_digit(n: int) -> char {
    if n < 10 {
        (48 + n) as char
    } else {
        (87 + n) as char
    }
}

/// Two lowercase hexadecimal digits per byte, most significant first.
pub open spec fn hex_of(b: Seq<u8>) -> Seq<char>
    decreases b.len(),
{
    if b.len() == 0 {
        Seq::empty()
    } else {
        hex_of(b.drop_last()) + seq![hex_digit(b.last() as int / 16), hex_digit(b.last() as int % 16)]
    }
}

/// The checksum of a file's content: the hex form of its SHA-256 digest.
pub open spec fn checksum_of(data: Seq<u8>) -> Seq<char> {
    hex_of(sha256_of(data))
}

proof fn lemma_hex_digit_injective(n: int, m: int)
    requires
        0 <= n < 16,
        0 <= m < 16,
        hex_digit(n) == hex_digit(m),
    ensures
        n == m,
{
    assert(hex_digit(n) as int == if n < 10 { 48 + n } else { 87 + n });
    assert(hex_digit(m) as int == if m < 10 { 48 + m } else { 87 + m });
}

proof fn lemma_hex_len(b: Seq<u8>)
    ensures
        hex_of(b).len() == 2 * b.len(),
    decreases b.len(),
{
    if b.len() > 0 {
        lemma_hex_len(b.drop_last());
    }
}

/// Hex encoding loses nothing: distinct byte strings have distinct hex forms.
pub proof fn lemma_hex_injective(a: Seq<u8>, b: Seq<u8>)
    requires
        hex_of(a) == hex_of(b),
    ensures
        a == b,
    decreases a.len(),
{
    lemma_hex_len(a);
    lemma_hex_len(b);
    if a.len() > 0 {
        let ha = hex_of(a.drop_last());
        let hb = hex_of(b.drop_last());
        lemma_hex_len(a.drop_last());
        lemma_hex_len(b.drop_last());
        let n = ha.len() as int;
        let ta = seq![hex_digit(a.last() as int / 16), hex_digit(a.last() as int % 16)];
        let tb = seq![hex_digit(b.last() as int / 16), hex_digit(b.last() as int % 16)];
        assert(hex_of(a) == ha + ta);
        assert(hex_of(b) == hb + tb);
        assert((ha + ta)[n] == ta[0]);
        assert((hb + tb)[n] == tb[0]);
        assert((ha + ta)[n + 1] == ta[1]);
        assert((hb + tb)[n + 1] == tb[1]);
        assert(ha =~= hex_of(a).subrange(0, n));
        assert(hb =~= hex_of(b).subrange(0, n));
        lemma_hex_injective(a.drop_last(), b.drop_last());
        lemma_hex_digit_injective(a.last() as int / 16, b.last() as int / 16);
        lemma_hex_digit_injective(a.last() as int % 16, b.last() as int % 16);
        assert(a.last() == b.last());
        assert(a =~= a.drop_last().push(a.last()));
        assert(b =~= b.drop_last().push(b.last()));
    }
}

/// Content with equal checksums had equal digests: the checksum is exactly as sensitive
/// to a change of content as the digest is.
pub proof fn lemma_checksum_distinguishes_digests(a: Seq<u8>, b: Seq<u8>)
    requires
        sha256_of(a) != sha256_of(b),
    ensures
        checksum_of(a) != checksum_of(b),
{
    if checksum_of(a) == checksum_of(b) {
        lemma_hex_injective(sha256_of(a), sha256_of(b));
    }
}

/// The checksum depends on the bytes alone: equal content gives equal checksums,
/// whatever file or run it came from.
pub proof fn lemma_checksum_deterministic(a: Seq<u8>, b: Seq<u8>)
    requires
        a == b,
    ensures
        checksum_of(a) == checksum_of(b),
{
}

pub(crate) fn hex_digit_str(n: u8) -> (r: &'static str)
    requires
        n < 16,
    ensures
        r@ == seq![hex_digit(n as int)],
{
    proof {
        reveal_strlit("0");
        reveal_strlit("1");
        reveal_strlit("2");
        reveal_strlit("3");
        reveal_strlit("4");
        reveal_strlit("5");
        reveal_strlit("6");
        reveal_strlit("7");
        reveal_strlit("8");
        reveal_strlit("9");
        reveal_strlit("a");
        reveal_strlit("b");
        reveal_strlit("c");
        reveal_strlit("d");
        reveal_strlit("e");
        reveal_strlit("f");
    }
    let r = match n {
        0 => "0",
        1 => "1",
        2 => "2",
        3 => "3",
        4 => "4",
        5 => "5",
        6 => "6",
        7 => "7",
        8 => "8",
        9 => "9",
        10 => "a",
        11 => "b",
        12 => "c",
        13 => "d",
        14 => "e",
        _ => "f",
    };
    assert(r@ =~= seq![hex_digit(n as int)]);
    r
}

/// Lowercase hexadecimal text of a byte sequence.
pub fn to_hex(bytes: &[u8]) -> (r: String)
    ensures
        r@ == hex_of(bytes@),
{
    let mut r = String::new();
    let mut i: usize = 0;
    while i < bytes.len()
        invariant
            i <= bytes@.len(),
            r@ == hex_of(bytes@.take(i as int)),
        decreases bytes.len() - i,
    {
        let b = bytes[i];
        r.append(hex_digit_str(b / 16));
        r.append(hex_digit_str(b % 16));
        assert(bytes@.take(i as int + 1).drop_last() =~= bytes@.take(i as int));
        assert(r@ =~= hex_of(bytes@.take(i as int + 1)));
        i = i + 1;
    }
    assert(bytes@.take(i as int) =~= bytes@);
    r
}

/// Why a cache file could not be read.
#[derive(Debug, Clone, Copy, PartialEq, Eq, Structural)]
pub enum CacheError {
    /// The text is not YAML, holds no document, or its first document has no `build_cache`
    /// sequence.
    InvalidCache,
}

/// The position of the first node under `parent` whose key is `key`.
pub open spec fn keyed_child(n: Seq<YamlNode>, parent: usize, key: Seq<char>) -> Option<int>
    decreases n.len(),
{
    if n.len() == 0 {
        None
    } else {
        match keyed_child(n.drop_last(), parent, key) {
            Some(j) => Some(j),
            None => if n.last().parent == parent && (n.last().key matches Some(k) && k@ == key) {
                Some(n.len() - 1)
            } else {
                None
            },
        }
    }
}

/// The string under `key` in the mapping at `parent`, if it is a string.
pub open spec fn keyed_string(n: Seq<YamlNode>, parent: usize, key: Seq<char>) -> Option<Seq<char>> {
    match keyed_child(n, parent, key) {
        Some(j) => match n[j].text {
            Some(t) => Some(t@),
            None => None,
        },
        None => None,
    }
}

/// The record that node `k` holds when it is an item of the sequence at `list` with both a
/// `source` and a `checksum` string.
pub open spec fn record_at(n: Seq<YamlNode>, list: usize, k: int) -> Option<(Seq<char>, Seq<char>)> {
    if n[k].parent == list {
        match (keyed_string(n, k as usize, "source"@), keyed_string(n, k as usize, "checksum"@)) {
            (Some(s), Some(c)) => Some((s, c)),
            _ => None,
        }
    } else {
        None
    }
}

/// The records held by the first `k` nodes, in order.
pub open spec fn records_upto(n: Seq<YamlNode>, list: usize, k: int) -> Seq<(Seq<char>, Seq<char>)>
    decreases k,
{
    if k <= 0 {
        Seq::empty()
    } else {
        match record_at(n, list, k - 1) {
            Some(r) => records_upto(n, list, k - 1).push(r),
            None => records_upto(n, list, k - 1),
        }
    }
}

/// The records of a cache file: the items of the first document's `build_cache` sequence that
/// have both a `source` and a `checksum` string; `None` when there is no document or no such
/// sequence. The first document is node 1, the first item of the list of documents.
pub open spec fn cache_records_of(n: Seq<YamlNode>) -> Option<Seq<(Seq<char>, Seq<char>)>> {
    if n.len() < 2 || n[1].parent != 0 {
        None
    } else {
        match keyed_child(n, 1, "build_cache"@) {
            Some(j) => if n[j].is_sequence {
                Some(records_upto(n, j as usize, n.len() as int))
            } else {
                None
            },
            None => None,
        }
    }
}

/// The document that stores a list of records: a `build_cache` sequence holding one
/// `source`/`checksum` mapping per record, in order.
pub open spec fn cache_document(recs: Seq<(Seq<char>, Seq<char>)>) -> Seq<(Seq<char>, Seq<Seq<(Seq<char>, Seq<char>)>>)> {
    seq![("build_cache"@, recs.map_values(|r: (Seq<char>, Seq<char>)| seq![("source"@, r.0), ("checksum"@, r.1)]))]
}

fn find_keyed_child(n: &Vec<YamlNode>, parent: usize, key: &str) -> (r: Option<usize>)
    ensures
        match r {
            Some(j) => keyed_child(n@, parent, key@) == Some(j as int) && j < n@.len(),
            None => keyed_child(n@, parent, key@) is None,
        },
{
    let wanted = key.to_owned();
    let mut i: usize = 0;
    while i < n.len()
        invariant
            i <= n.len(),
            wanted@ == key@,
            keyed_child(n@.take(i as int), parent, key@) is None,
        decreases n.len() - i,
    {
        assert(n@.take(i as int + 1).drop_last() =~= n@.take(i as int));
        let hit = match &n[i].key {
            Some(k) => n[i].parent == parent && *k == wanted,
            None => false,
        };
        if hit {
            proof {
                lemma_keyed_child_prefix(n@, parent, key@, i as int + 1);
            }
            return Some(i);
        }
        i = i + 1;
    }
    assert(n@.take(i as int) =~= n@);
    None
}

proof fn lemma_keyed_child_prefix(n: Seq<YamlNode>, parent: usize, key: Seq<char>, k: int)
    requires
        0 <= k <= n.len(),
        keyed_child(n.take(k), parent, key) is Some,
    ensures
        keyed_child(n, parent, key) == keyed_child(n.take(k), parent, key),
    decreases n.len() - k,
{
    if k < n.len() {
        assert(n.take(k + 1).drop_last() =~= n.take(k));
        lemma_keyed_child_prefix(n, parent, key, k + 1);
    } else {
        assert(n.take(k) =~= n);
    }
}

fn find_keyed_string(n: &Vec<YamlNode>, parent: usize, key: &str) -> (r: Option<String>)
    ensures
        match r {
            Some(t) => keyed_string(n@, parent, key@) == Some(t@),
            None => keyed_string(n@, parent, key@) is None,
        },
{
    match find_keyed_child(n, parent, key) {
        Some(j) => match &n[j].text {
            Some(t) => Some(t.clone()),
            None => None,
        },
        None => None,
    }
}

/// The persisted checksum table.
pub struct BuildCache {
    records: Vec<(String, String)>,
}

impl View for BuildCache {
    type V = Map<Seq<char>, Seq<char>>;

    open spec fn view(&self) -> Map<Seq<char>, Seq<char>> {
        map_of_records(self.records_view())
    }
}

impl BuildCache {
    /// The stored records, in the order in which their sources were first seen.
    pub closed spec fn records_view(&self) -> Seq<(Seq<char>, Seq<char>)> {
        pairs_view(self.records@)
    }

    pub closed spec fn wf(&self) -> bool {
        keys_unique(self.records_view())
    }

    pub fn new() -> (r: Self)
        ensures
            r.wf(),
            r@ == Map::<Seq<char>, Seq<char>>::empty(),
            r.records_view() == Seq::<(Seq<char>, Seq<char>)>::empty(),
    {
        let r = BuildCache { records: Vec::new() };
        assert(r.records_view() =~= Seq::empty());
        r
    }

    fn find(&self, key: &str) -> (r: Option<usize>)
        requires
            self.wf(),
        ensures
            match r {
                Some(i) => i < self.records_view().len() && self.records_view()[i as int].0 == key@,
                None => !self@.contains_key(key@),
            },
    {
        let target = key.to_owned();
        let mut i: usize = 0;
        while i < self.records.len()
            invariant
                i <= self.records.len(),
                target@ == key@,
                forall|j: int| 0 <= j < i ==> self.records_view()[j].0 != key@,
            decreases self.records.len() - i,
        {
            if self.records[i].0 == target {
                return Some(i);
            }
            i = i + 1;
        }
        proof {
            lemma_map_of_keys(self.records_view(), key@);
        }
        None
    }

    /// The digest stored for `key`, if any.
    pub fn get_checksum(&self, key: &str) -> (r: Option<String>)
        requires
            self.wf(),
        ensures
            match r {
                Some(d) => self@.contains_key(key@) && d@ == self@[key@],
                None => !self@.contains_key(key@),
            },
    {
        match self.find(key) {
            Some(i) => {
                proof {
                    lemma_map_of_has_record(self.records_view(), i as int);
                }
                Some(self.records[i].1.clone())
            },
            None => None,
        }
    }

    /// Stores `value` as the digest of `key`, replacing any earlier one.
    pub fn update_or_insert(&mut self, key: &str, value: &str)
        requires
            old(self).wf(),
        ensures
            final(self).wf(),
            final(self)@ == old(self)@.insert(key@, value@),
    {
        match self.find(key) {
            Some(i) => {
                proof {
                    lemma_map_of_update(self.records_view(), i as int, value@);
                }
                let ghost before = self.records_view();
                self.records.set(i, (key.to_owned(), value.to_owned()));
                assert(self.records_view() =~= before.update(i as int, (before[i as int].0, value@)));
            },
            None => {
                proof {
                    lemma_map_of_keys(self.records_view(), key@);
                }
                let ghost before = self.records_view();
                self.records.push((key.to_owned(), value.to_owned()));
                assert(self.records_view() =~= before.push((key@, value@)));
                assert(self.records_view().drop_last() =~= before);
            },
        }
    }

    /// The checksum of a source file's content: 64 lowercase hex digits of its SHA-256 digest.
    pub fn calculate_checksum(data: &[u8]) -> (r: String)
        ensures
            r@ == checksum_of(data@),
            r@.len() == 64,
    {
        let digest = sha256(data);
        proof {
            lemma_hex_len(digest@);
        }
        to_hex(digest.as_slice())
    }

    /// Whether an asset whose source `key` now has checksum `digest` must be rebuilt.
    pub fn is_dirty(&self, key: &str, digest: &str) -> (r: bool)
        requires
            self.wf(),
        ensures
            r == dirty(self@, key@, digest@),
    {
        match self.get_checksum(key) {
            Some(stored) => stored != digest.to_owned(),
            None => true,
        }
    }

    /// The stored records, as (source, checksum) pairs.
    pub fn records(&self) -> (r: Vec<(String, String)>)
        requires
            self.wf(),
        ensures
            pairs_view(r@) == self.records_view(),
            keys_unique(pairs_view(r@)),
            map_of_records(pairs_view(r@)) == self@,
    {
        let mut r: Vec<(String, String)> = Vec::new();
        let mut i: usize = 0;
        while i < self.records.len()
            invariant
                i <= self.records.len(),
                r@.len() == i,
                pairs_view(r@) =~= self.records_view().take(i as int),
            decreases self.records.len() - i,
        {
            let k = self.records[i].0.clone();
            let v = self.records[i].1.clone();
            let ghost before = r@;
            r.push((k, v));
            assert(r@ == before.push((k, v)));
            assert(pairs_view(r@)[i as int] == self.records_view()[i as int]);
            assert(pairs_view(r@) =~= self.records_view().take(i as int + 1));
            i = i + 1;
        }
        assert(self.records_view().take(i as int) =~= self.records_view());
        r
    }

    /// The table that a list of records denotes; a later record for a source wins.
    pub fn from_records(records: &Vec<(String, String)>) -> (r: Self)
        ensures
            r.wf(),
            r@ == map_of_records(pairs_view(records@)),
    {
        let mut r = BuildCache::new();
        let mut i: usize = 0;
        while i < records.len()
            invariant
                i <= records.len(),
                r.wf(),
                r@ == map_of_records(pairs_view(records@).take(i as int)),
            decreases records.len() - i,
        {
            r.update_or_insert(records[i].0.as_str(), records[i].1.as_str());
            assert(pairs_view(records@).take(i as int + 1).drop_last() =~= pairs_view(records@).take(i as int));
            i = i + 1;
        }
        assert(pairs_view(records@).take(i as int) =~= pairs_view(records@));
        r
    }

    /// Reads the text of a cache file: the records of its first document's `build_cache`
    /// sequence, skipping items without both a `source` and a `checksum` string. A later
    /// record for a source overrides an earlier one.
    pub fn load_from_file(contents: &str) -> (r: Result<Self, CacheError>)
        ensures
            match yaml_nodes_of(contents@) {
                None => r == Err::<Self, CacheError>(CacheError::InvalidCache),
                Some(n) => match cache_records_of(n) {
                    None => r == Err::<Self, CacheError>(CacheError::InvalidCache),
                    Some(recs) => r matches Ok(c) && c.wf() && c@ == map_of_records(recs),
                },
            },
    {
        let nodes = match parse_yaml(contents) {
            Some(n) => n,
            None => return Err(CacheError::InvalidCache),
        };
        if nodes.len() < 2 || nodes[1].parent != 0 {
            return Err(CacheError::InvalidCache);
        }
        let list = match find_keyed_child(&nodes, 1, "build_cache") {
            Some(j) => j,
            None => return Err(CacheError::InvalidCache),
        };
        if !nodes[list].is_sequence {
            return Err(CacheError::InvalidCache);
        }
        let mut records: Vec<(String, String)> = Vec::new();
        let mut k: usize = 0;
        assert(pairs_view(records@) =~= Seq::<(Seq<char>, Seq<char>)>::empty());
        while k < nodes.len()
            invariant
                k <= nodes.len(),
                list < nodes.len(),
                pairs_view(records@) == records_upto(nodes@, list, k as int),
            decreases nodes.len() - k,
        {
            if nodes[k].parent == list {
                let source = find_keyed_string(&nodes, k, "source");
                let checksum = find_keyed_string(&nodes, k, "checksum");
                match (source, checksum) {
                    (Some(s), Some(c)) => {
                        let ghost before = records@;
                        records.push((s, c));
                        assert(pairs_view(records@) =~= pairs_view(before).push((s@, c@)));
                    },
                    _ => {},
                }
            }
            k = k + 1;
        }
        Ok(Self::from_records(&records))
    }

    /// The text of the cache file: a YAML document whose `build_cache` sequence holds one
    /// `source`/`checksum` mapping per stored record, in the order of `records`.
    pub fn save_to_file(&self) -> (r: String)
        requires
            self.wf(),
        ensures
            r@ == yaml_text_of(cache_document(self.records_view())),
    {
        let records = self.records();
        let mut items: Vec<Vec<(String, String)>> = Vec::new();
        let mut i: usize = 0;
        while i < records.len()
            invariant
                i <= records.len(),
                pairs_view(records@) == self.records_view(),
                items@.len() == i,
                forall|j: int| 0 <= j < i ==> pairs_view(#[trigger] items@[j]@) == seq![
                    ("source"@, self.records_view()[j].0),
                    ("checksum"@, self.records_view()[j].1),
                ],
            decreases records.len() - i,
        {
            let mut fields: Vec<(String, String)> = Vec::new();
            fields.push((String::from_str("source"), records[i].0.clone()));
            fields.push((String::from_str("checksum"), records[i].1.clone()));
            assert(pairs_view(records@)[i as int] == (records@[i as int].0@, records@[i as int].1@));
            assert(pairs_view(fields@) =~= seq![
                ("source"@, self.records_view()[i as int].0),
                ("checksum"@, self.records_view()[i as int].1),
            ]);
            items.push(fields);
            i = i + 1;
        }
        let ghost inner = items@.map_values(|m: Vec<(String, String)>| pairs_view(m@));
        assert(inner =~= self.records_view().map_values(
            |r: (Seq<char>, Seq<char>)| seq![("source"@, r.0), ("checksum"@, r.1)],
        ));
        let mut doc: TableDocument = Vec::new();
        let key = String::from_str("build_cache");
        doc.push((key, items));
        assert(table_document_view(doc@)[0] == (key@, inner));
        assert(table_document_view(doc@) =~= cache_document(self.records_view()));
        emit_table_document(&doc)
    }

    /// Empties the table.
    pub fn clear(&mut self)
        ensures
            final(self).wf(),
            final(self)@ == Map::<Seq<char>, Seq<char>>::empty(),
    {
        self.records.clear();
        assert(self.records_view() =~= Seq::empty());
    }
}

/// The records that saving writes list each entry of the table exactly once, with its
/// checksum, and nothing else.
pub proof fn lemma_saved_records_are_the_table(c: BuildCache)
    requires
        c.wf(),
    ensures
        keys_unique(c.records_view()),
        map_of_records(c.records_view()) == c@,
        forall|k: Seq<char>| c@.contains_key(k) <==> exists|i: int| 0 <= i < c.records_view().len() && c.records_view()[i].0 == k,
        forall|i: int| 0 <= i < c.records_view().len() ==> #[trigger] c@[c.records_view()[i].0] == c.records_view()[i].1,
{
    assert forall|k: Seq<char>| c@.contains_key(k) <==> exists|i: int| 0 <= i < c.records_view().len() && c.records_view()[i].0 == k by {
        lemma_map_of_keys(c.records_view(), k);
    }
    assert forall|i: int| 0 <= i < c.records_view().len() implies #[trigger] c@[c.records_view()[i].0] == c.records_view()[i].1 by {
        lemma_map_of_has_record(c.records_view(), i);
    }
}

/// A cache file whose document holds the records that a table saves loads back as that table.
pub proof fn lemma_load_of_saved_records(c: BuildCache, n: Seq<YamlNode>)
    requires
        c.wf(),
        cache_records_of(n) == Some(c.records_view()),
    ensures
        cache_records_of(n) matches Some(recs) && map_of_records(recs) == c@,
{
}

} // verus!
