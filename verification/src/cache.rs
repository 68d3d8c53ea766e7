//! The transcription cache: transcripts of Alexa's answers keyed by the
//! BLAKE3 hash of the answer's MP3 bytes, kept in `~/.alexa/cache.json`.
use crate::config::{Config, in_alexa_dir};
use crate::text::{char_from_ascii, string_of};
use vstd::prelude::*;

verus! {

/// What `blake3::hash` computes for the bytes: the 32-byte digest.
pub uninterp spec fn blake3_digest(data: Seq<u8>) -> Seq<u8>;

/// The BLAKE3 digest of `data` (`blake3::hash`), 32 bytes long.
#[verifier::external_body]
fn blake3_hash(data: &[u8]) -> (r: Vec<u8>)
    ensures
        r@ == blake3_digest(data@),
        r@.len() == 32,
{
    blake3::hash(data).as_bytes().to_vec()
}

pub open spec fn lower_hex_char(d: nat) -> char {
    if d < 10 {
        (('0' as u32) + d) as char
    } else {
        (('a' as u32) + d - 10) as char
    }
}

/// Bytes as lower-case hexadecimal, two digits per byte.
pub open spec fn hex_lower(bytes: Seq<u8>) -> Seq<char>
    decreases bytes.len(),
{
    if bytes.len() == 0 {
        seq![]
    } else {
        hex_lower(bytes.drop_last()) + seq![
            lower_hex_char((bytes.last() / 16) as nat),
            lower_hex_char((bytes.last() % 16) as nat),
        ]
    }
}

pub proof fn lemma_hex_lower_len(bytes: Seq<u8>)
    ensures
        hex_lower(bytes).len() == 2 * bytes.len(),
    decreases bytes.len(),
{
    if bytes.len() > 0 {
        lemma_hex_lower_len(bytes.drop_last());
    }
}

fn hex_digit(d: u8) -> (r: char)
    requires
        d < 16,
    ensures
        r == lower_hex_char(d as nat),
{
    if d < 10 {
        char_from_ascii(48 + d)
    } else {
        char_from_ascii(87 + d)
    }
}

/// The cache key of an answer: the BLAKE3 hash of its bytes in lower-case
/// hexadecimal (64 characters).
pub fn key_for(mp3: &[u8]) -> (r: String)
    ensures
        r@ == hex_lower(blake3_digest(mp3@)),
        r@.len() == 64,
{
    let digest = blake3_hash(mp3);
    let mut out: Vec<char> = Vec::new();
    let mut i: usize = 0;
    while i < digest.len()
        invariant
            i <= digest.len(),
            out@ == hex_lower(digest@.subrange(0, i as int)),
        decreases digest.len() - i,
    {
        let b = digest[i];
        out.push(hex_digit(b / 16));
        out.push(hex_digit(b % 16));
        i += 1;
        assert(digest@.subrange(0, i as int).drop_last() =~= digest@.subrange(0, i - 1));
        assert(out@ =~= hex_lower(digest@.subrange(0, i as int)));
    }
    assert(digest@.subrange(0, digest@.len() as int) =~= digest@);
    proof {
        lemma_hex_lower_len(digest@);
    }
    string_of(out.as_slice())
}

// ---------------------------------------------------------------------------
// The cache
// ---------------------------------------------------------------------------

pub open spec fn entry_views(es: Seq<(String, String)>) -> Seq<(Seq<char>, Seq<char>)> {
    es.map_values(|e: (String, String)| (e.0@, e.1@))
}

/// No key stands twice.
pub open spec fn keys_unique(es: Seq<(Seq<char>, Seq<char>)>) -> bool {
    forall|i: int, j: int| 0 <= i < j < es.len() ==> #[trigger] es[i].0 != #[trigger] es[j].0
}

/// The map that a list of entries describes (a later entry for a key
/// replacing an earlier one).
pub open spec fn map_of(es: Seq<(Seq<char>, Seq<char>)>) -> Map<Seq<char>, Seq<char>>
    decreases es.len(),
{
    if es.len() == 0 {
        Map::empty()
    } else {
        map_of(es.drop_last()).insert(es.last().0, es.last().1)
    }
}

pub proof fn lemma_map_of_dom(es: Seq<(Seq<char>, Seq<char>)>, k: Seq<char>)
    ensures
        map_of(es).contains_key(k) <==> exists|i: int| 0 <= i < es.len() && #[trigger] es[i].0 == k,
    decreases es.len(),
{
    if es.len() > 0 {
        lemma_map_of_dom(es.drop_last(), k);
        if map_of(es.drop_last()).contains_key(k) {
            let i = choose|i: int| 0 <= i < es.drop_last().len() && #[trigger] es.drop_last()[i].0 == k;
            assert(es[i].0 == k);
        }
        if exists|i: int| 0 <= i < es.len() && #[trigger] es[i].0 == k {
            let i = choose|i: int| 0 <= i < es.len() && #[trigger] es[i].0 == k;
            if i < es.len() - 1 {
                assert(es.drop_last()[i].0 == k);
            }
        }
    }
}

pub proof fn lemma_map_of_value(es: Seq<(Seq<char>, Seq<char>)>, i: int)
    requires
        keys_unique(es),
        0 <= i < es.len(),
    ensures
        map_of(es).contains_key(es[i].0),
        map_of(es)[es[i].0] == es[i].1,
    decreases es.len(),
{
    if i < es.len() - 1 {
        let d = es.drop_last();
        assert(keys_unique(d));
        assert(d[i] == es[i]);
        lemma_map_of_value(d, i);
        assert(es[i].0 != es[es.len() - 1].0);
    }
}

pub proof fn lemma_map_of_update(es: Seq<(Seq<char>, Seq<char>)>, i: int, v: Seq<char>)
    requires
        keys_unique(es),
        0 <= i < es.len(),
    ensures
        map_of(es.update(i, (es[i].0, v))) == map_of(es).insert(es[i].0, v),
    decreases es.len(),
{
    let k = es[i].0;
    let u = es.update(i, (k, v));
    if i == es.len() - 1 {
        assert(u.drop_last() =~= es.drop_last());
        assert(map_of(u) =~= map_of(es).insert(k, v));
    } else {
        let d = es.drop_last();
        assert(keys_unique(d));
        lemma_map_of_update(d, i, v);
        assert(u.drop_last() =~= d.update(i, (k, v)));
        assert(es.last().0 != k);
        assert(map_of(u) =~= map_of(es).insert(k, v));
    }
}

/// What `serde_json::from_str::<HashMap<String, String>>` reads from the
/// text: the map of a JSON object whose values are all strings, `None` where
/// it reports an error.
pub uninterp spec fn json_string_map(text: Seq<char>) -> Option<Map<Seq<char>, Seq<char>>>;

/// Reads a JSON object of strings (`serde_json::from_str` into a
/// `HashMap<String, String>`), its entries handed out in the map's iteration
/// order; each key occurs once.
#[verifier::external_body]
fn parse_string_map(text: &str) -> (r: Option<Vec<(String, String)>>)
    ensures
        r is Some == json_string_map(text@) is Some,
        r matches Some(v) ==> keys_unique(entry_views(v@)) && map_of(entry_views(v@))
            == json_string_map(text@)->0,
{
    serde_json::from_str::<std::collections::HashMap<String, String>>(text).ok().map(
        |m| m.into_iter().collect(),
    )
}

/// The transcription cache: the file it is kept in and its entries.
pub struct Cache {
    path: String,
    entries: Vec<(String, String)>,
}

impl View for Cache {
    type V = Map<Seq<char>, Seq<char>>;

    closed spec fn view(&self) -> Map<Seq<char>, Seq<char>> {
        map_of(entry_views(self.entries@))
    }
}

impl Cache {
    #[verifier::type_invariant]
    closed spec fn inv(&self) -> bool {
        keys_unique(entry_views(self.entries@))
    }

    /// The file the cache is kept in.
    pub closed spec fn file(&self) -> Seq<char> {
        self.path@
    }

    /// `~/.alexa/cache.json`.
    pub fn file_path() -> (r: String)
        ensures
            in_alexa_dir(r@, "cache.json"@),
    {
        Config::under_dir("cache.json")
    }

    /// An empty cache kept in `path`.
    pub fn new(path: String) -> (r: Cache)
        ensures
            r@ == Map::<Seq<char>, Seq<char>>::empty(),
            r.file() == path@,
    {
        let c = Cache { path, entries: Vec::new() };
        assert(entry_views(c.entries@) =~= seq![]);
        c
    }

    /// An empty in-memory cache that is never written anywhere useful.
    pub fn empty_for_test() -> (r: Cache)
        ensures
            r@ == Map::<Seq<char>, Seq<char>>::empty(),
            r.file() == "/dev/null"@,
    {
        Cache::new("/dev/null".to_string())
    }

    /// The cache kept in `path`, read from the file's text: its entries where
    /// the text is a JSON object of strings, none where it is not or where
    /// there was no file to read.
    pub fn from_file_text(path: String, text: Option<&str>) -> (c: Cache)
        ensures
            c@ == match text {
                Some(t) => match json_string_map(t@) {
                    Some(m) => m,
                    None => Map::empty(),
                },
                None => Map::<Seq<char>, Seq<char>>::empty(),
            },
            c.file() == path@,
    {
        match text {
            Some(t) => match parse_string_map(t) {
                Some(entries) => Cache::from_entries(path, entries),
                None => Cache::new(path),
            },
            None => Cache::new(path),
        }
    }

    /// A cache kept in `path` holding the given entries, a later entry for a
    /// key replacing an earlier one.
    pub fn from_entries(path: String, entries: Vec<(String, String)>) -> (r: Cache)
        ensures
            r@ == map_of(entry_views(entries@)),
            r.file() == path@,
    {
        let mut c = Cache::new(path);
        let mut i: usize = 0;
        while i < entries.len()
            invariant
                i <= entries.len(),
                c@ == map_of(entry_views(entries@.subrange(0, i as int))),
                c.file() == path@,
            decreases entries.len() - i,
        {
            c.put_mem(entries[i].0.as_str(), entries[i].1.as_str());
            assert(entry_views(entries@.subrange(0, i + 1)).drop_last() =~= entry_views(
                entries@.subrange(0, i as int),
            ));
            i += 1;
        }
        assert(entries@.subrange(0, entries@.len() as int) =~= entries@);
        c
    }

    /// The file the cache is kept in.
    pub fn path(&self) -> (r: &str)
        ensures
            r@ == self.file(),
    {
        self.path.as_str()
    }

    /// The entries of the cache, each key once.
    pub fn entries(&self) -> (r: Vec<(String, String)>)
        ensures
            map_of(entry_views(r@)) == self@,
            keys_unique(entry_views(r@)),
    {
        proof {
            use_type_invariant(self);
        }
        let mut out: Vec<(String, String)> = Vec::new();
        let mut i: usize = 0;
        while i < self.entries.len()
            invariant
                i <= self.entries.len(),
                out@ == self.entries@.subrange(0, i as int),
            decreases self.entries.len() - i,
        {
            out.push((self.entries[i].0.clone(), self.entries[i].1.clone()));
            i += 1;
            assert(out@ =~= self.entries@.subrange(0, i as int));
        }
        assert(self.entries@.subrange(0, self.entries@.len() as int) =~= self.entries@);
        out
    }

    /// The index of the entry for `key`.
    fn position(&self, key: &str) -> (r: Option<usize>)
        ensures
            r matches Some(i) ==> i < self.entries@.len() && self.entries@[i as int].0@ == key@,
            r is None ==> forall|i: int|
                0 <= i < self.entries@.len() ==> self.entries@[i].0@ != key@,
    {
        let mut i: usize = 0;
        while i < self.entries.len()
            invariant
                i <= self.entries.len(),
                forall|j: int| 0 <= j < i ==> self.entries@[j].0@ != key@,
            decreases self.entries.len() - i,
        {
            if crate::text::str_eq(self.entries[i].0.as_str(), key) {
                return Some(i);
            }
            i += 1;
        }
        None
    }

    /// The transcript cached under `key`.
    pub fn get(&self, key: &str) -> (r: Option<String>)
        ensures
            r is Some <==> self@.contains_key(key@),
            r matches Some(t) ==> t@ == self@[key@],
    {
        proof {
            use_type_invariant(self);
        }
        let ghost es = entry_views(self.entries@);
        proof {
            lemma_map_of_dom(es, key@);
        }
        match self.position(key) {
            Some(i) => {
                proof {
                    assert(es[i as int].0 == key@);
                    lemma_map_of_value(es, i as int);
                }
                Some(self.entries[i].1.clone())
            },
            None => {
                assert(forall|i: int| 0 <= i < es.len() ==> es[i].0 != key@);
                None
            },
        }
    }

    /// Caches `transcript` under `key` in memory, replacing what was cached
    /// under it.
    pub fn put_mem(&mut self, key: &str, transcript: &str)
        ensures
            final(self)@ == old(self)@.insert(key@, transcript@),
            final(self).file() == old(self).file(),
    {
        proof {
            use_type_invariant(&*self);
        }
        let ghost es = entry_views(self.entries@);
        match self.position(key) {
            Some(i) => {
                let mut entries: Vec<(String, String)> = Vec::new();
                std::mem::swap(&mut entries, &mut self.entries);
                entries.set(i, (key.to_string(), transcript.to_string()));
                proof {
                    assert(es[i as int].0 == key@);
                    lemma_map_of_update(es, i as int, transcript@);
                    assert(entry_views(entries@) =~= es.update(i as int, (es[i as int].0, transcript@)));
                    assert forall|a: int, b: int| 0 <= a < b < entries@.len() implies #[trigger] entry_views(entries@)[a].0 != #[trigger] entry_views(entries@)[b].0 by {
                        assert(es[a].0 != es[b].0);
                    }
                }
                self.entries = entries;
            },
            None => {
                let mut entries: Vec<(String, String)> = Vec::new();
                std::mem::swap(&mut entries, &mut self.entries);
                entries.push((key.to_string(), transcript.to_string()));
                proof {
                    assert(entry_views(entries@) =~= es.push((key@, transcript@)));
                    assert(entry_views(entries@).drop_last() =~= es);
                    assert forall|a: int, b: int| 0 <= a < b < entries@.len() implies #[trigger] entry_views(entries@)[a].0 != #[trigger] entry_views(entries@)[b].0 by {
                        if b < es.len() {
                            assert(es[a].0 != es[b].0);
                        } else {
                            assert(es[a].0 != key@);
                        }
                    }
                }
                self.entries = entries;
            },
        }
    }
}

/// Reading back a transcript gives what was last cached under its key, and
/// caching under one key leaves every other key as it was: `after` is the
/// cache `before` once `put_mem(key, transcript)` has run.
pub proof fn lemma_cache_read_after_write(
    before: Cache,
    after: Cache,
    key: Seq<char>,
    transcript: Seq<char>,
    other: Seq<char>,
)
    requires
        after@ == before@.insert(key, transcript),
        other != key,
    ensures
        after@.contains_key(key),
        after@[key] == transcript,
        after@.contains_key(other) == before@.contains_key(other),
        before@.contains_key(other) ==> after@[other] == before@[other],
{
}

/// The cache key depends on the answer's bytes alone: the same bytes always
/// give the same key, and a 32-byte digest is written as 64 hexadecimal
/// digits.
pub proof fn lemma_key_content_addressed(a: Seq<u8>, b: Seq<u8>)
    requires
        a == b,
    ensures
        hex_lower(blake3_digest(a)) == hex_lower(blake3_digest(b)),
        blake3_digest(a).len() == 32 ==> hex_lower(blake3_digest(a)).len() == 64,
{
    lemma_hex_lower_len(blake3_digest(a));
}

} // verus!
