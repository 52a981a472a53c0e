//! Asset names, their validation, and the name-to-digest map of an asset pool.

use rand::seq::SliceRandom;
use sha2::Digest;
use vstd::prelude::*;

verus! {

/// A name may be used as a storage key: it holds no `/`, no `\` and no `..`.
pub open spec fn is_safe_filename(s: Seq<char>) -> bool {
    &&& forall|i: int| 0 <= i < s.len() ==> s[i] != '/' && s[i] != '\\'
    &&& forall|i: int| 0 <= i < s.len() - 1 ==> !(#[trigger] s[i] == '.' && s[i + 1] == '.')
}

/// A name is that of a sound asset: it ends with `.mp3` or `.wav`.
pub open spec fn is_audio_name(s: Seq<char>) -> bool {
    s.len() >= 4 && {
        let ext = s.subrange(s.len() - 4, s.len() as int);
        ext == seq!['.', 'm', 'p', '3'] || ext == seq!['.', 'w', 'a', 'v']
    }
}

/// The lowercase hexadecimal digit of a value below 16.
pub open spec fn hex_digit(n: u8) -> char {
    if n < 10 {
        ((48 + n) as u32) as char
    } else {
        ((87 + n) as u32) as char
    }
}

/// Two lowercase hexadecimal digits per byte, high nibble first.
pub open spec fn hex_lower(b: Seq<u8>) -> Seq<char>
    decreases b.len(),
{
    if b.len() == 0 {
        Seq::empty()
    } else {
        seq![hex_digit(b[0] / 16), hex_digit(b[0] % 16)] + hex_lower(b.drop_first())
    }
}

/// The SHA-256 digest of a byte sequence.
pub uninterp spec fn sha256_of(data: Seq<u8>) -> Seq<u8>;

/// The digest under which an asset's content is known: SHA-256, in hex.
pub open spec fn content_hash_spec(data: Seq<u8>) -> Seq<char> {
    hex_lower(sha256_of(data))
}

/// Relies on sha2::Sha256::digest: the SHA-256 digest of the bytes, whose
/// output size is 32 bytes.
#[verifier::external_body]
fn sha256(data: &[u8]) -> (r: Vec<u8>)
    ensures
        r@ == sha256_of(data@),
        r@.len() == 32,
{
    sha2::Sha256::digest(data).to_vec()
}

/// Relies on hex::encode: each byte becomes two lowercase hex digits.
#[verifier::external_body]
fn to_hex(data: &[u8]) -> (r: String)
    ensures
        r@ == hex_lower(data@),
{
    hex::encode(data)
}

/// Relies on rand's SliceRandom::choose over the thread-local generator:
/// nothing for an empty slice, else one of its elements.
#[verifier::external_body]
pub(crate) fn choose_one(items: &Vec<String>) -> (r: Option<String>)
    ensures
        items@.len() == 0 <==> r is None,
        r matches Some(s) ==> exists|i: int| 0 <= i < items.len() && items@[i]@ == s@,
{
    items.choose(&mut rand::thread_rng()).cloned()
}

/// The characters of a string, in order.
pub fn chars_of(s: &str) -> (r: Vec<char>)
    ensures
        r@ == s@,
{
    let mut v: Vec<char> = Vec::new();
    for c in it: s.chars()
        invariant
            v@ == it.seq().take(it.index() as int),
    {
        v.push(c);
    }
    v
}

/// Whether a name may be used as a storage key.
pub fn is_valid_filename(name: &str) -> (r: bool)
    ensures
        r == is_safe_filename(name@),
{
    let cs = chars_of(name);
    let n = cs.len();
    let mut i: usize = 0;
    while i < n
        invariant
            n == cs@.len(),
            cs@ == name@,
            i <= n,
            forall|j: int| 0 <= j < i ==> cs@[j] != '/' && cs@[j] != '\\',
            forall|j: int| 0 <= j < i && j < n - 1 ==> !(#[trigger] cs@[j] == '.' && cs@[j + 1] == '.'),
        decreases n - i,
    {
        let c = cs[i];
        if c == '/' || c == '\\' {
            return false;
        }
        if c == '.' && i + 1 < n && cs[i + 1] == '.' {
            return false;
        }
        i = i + 1;
    }
    true
}

/// Whether a name is that of a sound asset.
pub fn is_audio_filename(name: &str) -> (r: bool)
    ensures
        r == is_audio_name(name@),
{
    let cs = chars_of(name);
    let n = cs.len();
    if n < 4 {
        return false;
    }
    let ghost ext = cs@.subrange(n - 4, n as int);
    let dot = cs[n - 4] == '.';
    let mp3 = cs[n - 3] == 'm' && cs[n - 2] == 'p' && cs[n - 1] == '3';
    let wav = cs[n - 3] == 'w' && cs[n - 2] == 'a' && cs[n - 1] == 'v';
    proof {
        assert(mp3 && dot ==> ext =~= seq!['.', 'm', 'p', '3']);
        assert(wav && dot ==> ext =~= seq!['.', 'w', 'a', 'v']);
        assert(ext == seq!['.', 'm', 'p', '3'] ==> ext[0] == '.' && ext[1] == 'm' && ext[2] == 'p'
            && ext[3] == '3');
        assert(ext == seq!['.', 'w', 'a', 'v'] ==> ext[0] == '.' && ext[1] == 'w' && ext[2] == 'a'
            && ext[3] == 'v');
    }
    dot && (mp3 || wav)
}

/// The digest of an asset's content: the SHA-256 of its bytes, in lowercase hex.
pub fn content_hash(data: &[u8]) -> (r: String)
    ensures
        r@ == content_hash_spec(data@),
{
    let digest = sha256(data);
    to_hex(digest.as_slice())
}

/// The map that a scan of a directory builds from its files, given as
/// (name, content) pairs in the order read: each sound asset under its
/// content digest, a later file of one name replacing an earlier one.
pub open spec fn scan_map(files: Seq<(String, Vec<u8>)>) -> Map<Seq<char>, Seq<char>>
    decreases files.len(),
{
    if files.len() == 0 {
        Map::empty()
    } else {
        let m = scan_map(files.drop_last());
        let f = files.last();
        if is_audio_name(f.0@) {
            m.insert(f.0@, content_hash_spec(f.1@))
        } else {
            m
        }
    }
}

/// Scanning the same files twice, the same names with the same bytes in the
/// same order, gives the same map: a digest depends on the bytes alone.
pub proof fn lemma_scan_deterministic(a: Seq<(String, Vec<u8>)>, b: Seq<(String, Vec<u8>)>)
    requires
        a.len() == b.len(),
        forall|i: int| 0 <= i < a.len() ==> (#[trigger] a[i]).0@ == b[i].0@ && a[i].1@ == b[i].1@,
    ensures
        scan_map(a) == scan_map(b),
    decreases a.len(),
{
    if a.len() > 0 {
        lemma_scan_deterministic(a.drop_last(), b.drop_last());
        assert(a.last() == a[a.len() - 1]);
    }
}

/// A name holding `/`, `\` or `..` at position `i` may not be used as a
/// storage key.
pub proof fn lemma_separator_refused(name: Seq<char>, i: int)
    requires
        0 <= i < name.len(),
        name[i] == '/' || name[i] == '\\' || (i + 1 < name.len() && name[i] == '.' && name[i + 1]
            == '.'),
    ensures
        !is_safe_filename(name),
{
}

/// Builds the digest map of a directory from its files, given as
/// (name, content) pairs; files that are not sound assets are left out.
pub fn hash_assets(files: &Vec<(String, Vec<u8>)>) -> (r: AssetHashMap)
    ensures
        r.wf(),
        r@ == scan_map(files@),
{
    let mut m = AssetHashMap::new();
    let mut i: usize = 0;
    while i < files.len()
        invariant
            i <= files.len(),
            m.wf(),
            m@ == scan_map(files@.take(i as int)),
        decreases files.len() - i,
    {
        let name = &files[i].0;
        proof {
            assert(files@.take(i as int + 1).drop_last() =~= files@.take(i as int));
        }
        if is_audio_filename(name.as_str()) {
            let h = content_hash(files[i].1.as_slice());
            m.insert(name.clone(), h);
        }
        i = i + 1;
    }
    proof {
        assert(files@.take(files@.len() as int) =~= files@);
    }
    m
}

/// A mapping from asset name to content digest, each name at most once.
#[derive(Debug)]
pub struct AssetHashMap {
    entries: Vec<(String, String)>,
}

impl AssetHashMap {
    /// The number of entries.
    pub closed spec fn spec_len(&self) -> nat {
        self.entries@.len()
    }

    /// The name of entry `i`.
    pub closed spec fn name(&self, i: int) -> Seq<char> {
        self.entries@[i].0@
    }

    /// The digest of entry `i`.
    pub closed spec fn digest(&self, i: int) -> Seq<char> {
        self.entries@[i].1@
    }

    /// No name occurs twice.
    pub open spec fn wf(&self) -> bool {
        forall|i: int, j: int|
            0 <= i < self.spec_len() && 0 <= j < self.spec_len() && i != j ==> self.name(i)
                != self.name(j)
    }

    /// Entry `i` stands in the map.
    pub proof fn lemma_entry(&self, i: int)
        requires
            self.wf(),
            0 <= i < self.spec_len(),
        ensures
            self@.contains_key(self.name(i)),
            self@[self.name(i)] == self.digest(i),
    {
        let k = self.name(i);
        assert(exists|j: int| 0 <= j < self.spec_len() && self.name(j) == k);
        let j = choose|j: int| 0 <= j < self.spec_len() && self.name(j) == k;
        assert(j == i);
    }

    /// The empty map.
    pub fn new() -> (r: AssetHashMap)
        ensures
            r.wf(),
            r@ == Map::<Seq<char>, Seq<char>>::empty(),
    {
        let r = AssetHashMap { entries: Vec::new() };
        assert(r@ =~= Map::<Seq<char>, Seq<char>>::empty());
        r
    }

    /// The number of entries.
    pub fn len(&self) -> (r: usize)
        requires
            self.wf(),
        ensures
            r == self.spec_len(),
            r == self@.len(),
    {
        proof {
            self.lemma_len();
        }
        self.entries.len()
    }

    /// The map has as many keys as entries.
    pub proof fn lemma_len(&self)
        requires
            self.wf(),
        ensures
            self@.dom().finite(),
            self@.len() == self.spec_len(),
        decreases self.spec_len(),
    {
        let names = Seq::new(self.spec_len(), |i: int| self.name(i));
        assert(self@.dom() =~= names.to_set()) by {
            assert forall|k: Seq<char>| self@.dom().contains(k) implies names.to_set().contains(k) by {
                let i = choose|i: int| 0 <= i < self.spec_len() && self.name(i) == k;
                assert(names[i] == k);
            }
            assert forall|k: Seq<char>| names.to_set().contains(k) implies self@.dom().contains(k) by {
                let i = choose|i: int| 0 <= i < names.len() && names[i] == k;
                self.lemma_entry(i);
            }
        }
        assert(names.no_duplicates());
        names.unique_seq_to_set();
    }

    /// The name of entry `i`.
    pub fn name_at(&self, i: usize) -> (r: &String)
        requires
            i < self.spec_len(),
        ensures
            r@ == self.name(i as int),
    {
        &self.entries[i].0
    }

    /// The digest of entry `i`.
    pub fn digest_at(&self, i: usize) -> (r: &String)
        requires
            i < self.spec_len(),
        ensures
            r@ == self.digest(i as int),
    {
        &self.entries[i].1
    }

    /// The digest recorded for `name`, if any.
    pub fn get(&self, name: &String) -> (r: Option<&String>)
        requires
            self.wf(),
        ensures
            r is Some <==> self@.contains_key(name@),
            r matches Some(h) ==> h@ == self@[name@],
    {
        let mut i: usize = 0;
        while i < self.entries.len()
            invariant
                self.wf(),
                i <= self.spec_len(),
                forall|j: int| 0 <= j < i ==> self.name(j) != name@,
            decreases self.spec_len() - i,
        {
            if self.entries[i].0 == *name {
                proof {
                    self.lemma_entry(i as int);
                }
                return Some(&self.entries[i].1);
            }
            i = i + 1;
        }
        None
    }

    /// Records `hash` for `name`, replacing any earlier digest of that name.
    pub fn insert(&mut self, name: String, hash: String)
        requires
            old(self).wf(),
        ensures
            final(self).wf(),
            final(self)@ == old(self)@.insert(name@, hash@),
    {
        let ghost pre = *self;
        let mut i: usize = 0;
        while i < self.entries.len()
            invariant
                *self == pre,
                pre == *old(self),
                pre.wf(),
                i <= self.spec_len(),
                forall|j: int| 0 <= j < i ==> self.name(j) != name@,
            decreases self.spec_len() - i,
        {
            if self.entries[i].0 == name {
                let ghost k = name@;
                let ghost v = hash@;
                self.entries.set(i, (name, hash));
                proof {
                    assert forall|j: int| 0 <= j < self.spec_len() implies #[trigger] self.name(j)
                        == pre.name(j) by {
                        if j != i {
                            assert(self.entries@[j] == pre.entries@[j]);
                        }
                    }
                    assert(self.wf());
                    self.lemma_replaced(pre, i as int, k, v);
                }
                return;
            }
            i = i + 1;
        }
        let ghost k = name@;
        let ghost v = hash@;
        self.entries.push((name, hash));
        proof {
            assert forall|j: int| 0 <= j < pre.spec_len() implies #[trigger] self.name(j)
                == pre.name(j) by {
                assert(self.entries@[j] == pre.entries@[j]);
            }
            assert(self.wf());
            self.lemma_pushed(pre, k, v);
        }
    }

    proof fn lemma_replaced(&self, pre: AssetHashMap, i: int, k: Seq<char>, v: Seq<char>)
        requires
            pre.wf(),
            self.wf(),
            0 <= i < pre.spec_len(),
            self.spec_len() == pre.spec_len(),
            pre.name(i) == k,
            self.name(i) == k,
            self.digest(i) == v,
            forall|j: int| 0 <= j < pre.spec_len() && j != i ==> self.entries@[j] == pre.entries@[j],
        ensures
            self@ == pre@.insert(k, v),
    {
        assert forall|key: Seq<char>| #[trigger] self@.contains_key(key) == pre@.insert(
            k,
            v,
        ).contains_key(key) && (self@.contains_key(key) ==> self@[key] == pre@.insert(k, v)[key]) by {
            if key == k {
                self.lemma_entry(i);
            } else if pre@.contains_key(key) {
                let j = choose|j: int| 0 <= j < pre.spec_len() && pre.name(j) == key;
                self.lemma_entry(j);
                pre.lemma_entry(j);
            } else if self@.contains_key(key) {
                let j = choose|j: int| 0 <= j < self.spec_len() && self.name(j) == key;
                assert(pre.name(j) == key);
            }
        }
        assert(self@ =~= pre@.insert(k, v));
    }

    proof fn lemma_pushed(&self, pre: AssetHashMap, k: Seq<char>, v: Seq<char>)
        requires
            pre.wf(),
            self.wf(),
            self.spec_len() == pre.spec_len() + 1,
            self.name(pre.spec_len() as int) == k,
            self.digest(pre.spec_len() as int) == v,
            forall|j: int| 0 <= j < pre.spec_len() ==> self.entries@[j] == pre.entries@[j],
        ensures
            self@ == pre@.insert(k, v),
    {
        let n = pre.spec_len() as int;
        assert forall|key: Seq<char>| #[trigger] self@.contains_key(key) == pre@.insert(
            k,
            v,
        ).contains_key(key) && (self@.contains_key(key) ==> self@[key] == pre@.insert(k, v)[key]) by {
            if key == k {
                self.lemma_entry(n);
            } else if pre@.contains_key(key) {
                let j = choose|j: int| 0 <= j < pre.spec_len() && pre.name(j) == key;
                self.lemma_entry(j);
                pre.lemma_entry(j);
            } else if self@.contains_key(key) {
                let j = choose|j: int| 0 <= j < self.spec_len() && self.name(j) == key;
                assert(pre.name(j) == key);
            }
        }
        assert(self@ =~= pre@.insert(k, v));
    }
}

impl View for AssetHashMap {
    type V = Map<Seq<char>, Seq<char>>;

    open spec fn view(&self) -> Map<Seq<char>, Seq<char>> {
        Map::new(
            |k: Seq<char>| exists|i: int| 0 <= i < self.spec_len() && self.name(i) == k,
            |k: Seq<char>|
                self.digest(choose|i: int| 0 <= i < self.spec_len() && self.name(i) == k),
        )
    }
}

} // verus!
