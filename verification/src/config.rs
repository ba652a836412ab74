//! The sort configuration: which category each extension belongs to, and
//! where each category's files go.

use vstd::prelude::*;
use crate::text::{owned, text_eq};

verus! {

/// `m` without the entries whose value is `v`.
pub open spec fn without_value(m: Map<Seq<char>, Seq<char>>, v: Seq<char>) -> Map<Seq<char>, Seq<char>> {
    m.restrict(m.dom().filter(|key: Seq<char>| m[key] != v))
}

/// A finite map from strings to strings, kept as a list of distinct keys.
pub struct StringMap {
    entries: Vec<(String, String)>,
    model: Ghost<Map<Seq<char>, Seq<char>>>,
}

impl View for StringMap {
    type V = Map<Seq<char>, Seq<char>>;

    closed spec fn view(&self) -> Map<Seq<char>, Seq<char>> {
        self.model@
    }
}

impl StringMap {
    spec fn key(&self, i: int) -> Seq<char> {
        self.entries@[i].0@
    }

    spec fn value(&self, i: int) -> Seq<char> {
        self.entries@[i].1@
    }

    /// The entries have distinct keys and are exactly the map.
    pub closed spec fn wf(&self) -> bool {
        &&& self.model@.dom().finite()
        &&& forall|i: int, j: int|
            0 <= i < j < self.entries@.len() ==> #[trigger] self.key(i) != #[trigger] self.key(j)
        &&& forall|i: int|
            0 <= i < self.entries@.len() ==> self.model@.contains_key(#[trigger] self.key(i))
                && self.model@[self.key(i)] == self.value(i)
        &&& forall|k: Seq<char>| #[trigger]
            self.model@.contains_key(k) ==> exists|i: int|
                0 <= i < self.entries@.len() && #[trigger] self.key(i) == k
    }

    /// The empty map.
    pub fn new() -> (m: Self)
        ensures
            m.wf(),
            m@ == Map::<Seq<char>, Seq<char>>::empty(),
    {
        StringMap { entries: Vec::new(), model: Ghost(Map::empty()) }
    }

    /// The number of keys.
    pub fn len(&self) -> (n: usize)
        requires
            self.wf(),
        ensures
            n == self@.len(),
    {
        proof {
            self.lemma_dom_is_keys();
        }
        self.entries.len()
    }

    proof fn lemma_dom_is_keys(&self)
        requires
            self.wf(),
        ensures
            self@.len() == self.entries@.len(),
            self@.dom() == Seq::new(self.entries@.len(), |i: int| self.key(i)).to_set(),
    {
        let ks = Seq::new(self.entries@.len(), |i: int| self.key(i));
        assert forall|k: Seq<char>| self@.dom().contains(k) <==> ks.to_set().contains(k) by {
            if self@.dom().contains(k) {
                let i = choose|i: int| 0 <= i < self.entries@.len() && #[trigger] self.key(i) == k;
                assert(ks[i] == k);
            }
            if ks.to_set().contains(k) {
                let i = choose|i: int| 0 <= i < ks.len() && ks[i] == k;
                assert(self.key(i) == k);
            }
        }
        assert(self@.dom() =~= ks.to_set());
        assert(ks.no_duplicates()) by {
            assert forall|i: int, j: int| 0 <= i < ks.len() && 0 <= j < ks.len() && i != j
                implies ks[i] != ks[j] by {
                if i < j {
                    assert(self.key(i) != self.key(j));
                } else {
                    assert(self.key(j) != self.key(i));
                }
            }
        }
        ks.unique_seq_to_set();
    }

    fn find(&self, k: &str) -> (r: Option<usize>)
        requires
            self.wf(),
        ensures
            r matches Some(i) ==> i < self.entries@.len() && self.key(i as int) == k@,
            r is None ==> !self@.contains_key(k@),
    {
        let n = self.entries.len();
        let mut i: usize = 0;
        while i < n
            invariant
                n == self.entries@.len(),
                i <= n,
                forall|t: int| 0 <= t < i ==> #[trigger] self.key(t) != k@,
            decreases n - i,
        {
            if text_eq(self.entries[i].0.as_str(), k) {
                return Some(i);
            }
            i += 1;
        }
        proof {
            if self@.contains_key(k@) {
                let t = choose|t: int| 0 <= t < self.entries@.len() && #[trigger] self.key(t) == k@;
                assert(self.key(t) != k@);
            }
        }
        None
    }

    /// The value stored under `k`.
    pub fn get(&self, k: &str) -> (r: Option<&String>)
        requires
            self.wf(),
        ensures
            r is Some <==> self@.contains_key(k@),
            r matches Some(v) ==> v@ == self@[k@],
    {
        match self.find(k) {
            Some(i) => Some(&self.entries[i].1),
            None => None,
        }
    }

    /// Whether `k` is a key.
    pub fn contains_key(&self, k: &str) -> (r: bool)
        requires
            self.wf(),
        ensures
            r == self@.contains_key(k@),
    {
        self.find(k).is_some()
    }

    /// Stores `v` under `k`, replacing what was there.
    pub fn insert(&mut self, k: String, v: String)
        requires
            old(self).wf(),
        ensures
            final(self).wf(),
            final(self)@ == old(self)@.insert(k@, v@),
    {
        let ghost old_self = *self;
        let ghost new_model = self.model@.insert(k@, v@);
        match self.find(k.as_str()) {
            Some(i) => {
                self.entries.set(i, (k, v));
                self.model = Ghost(new_model);
                proof {
                    assert forall|j: int| 0 <= j < self.entries@.len() implies #[trigger] self.key(j)
                        == old_self.key(j) by {}
                    assert forall|key: Seq<char>| #[trigger]
                        self.model@.contains_key(key) implies exists|t: int|
                        0 <= t < self.entries@.len() && #[trigger] self.key(t) == key by {
                        if key != old_self.key(i as int) {
                            let t = choose|t: int|
                                0 <= t < old_self.entries@.len() && #[trigger] old_self.key(t)
                                    == key;
                            assert(self.key(t) == key);
                        } else {
                            assert(self.key(i as int) == key);
                        }
                    }
                }
            },
            None => {
                self.entries.push((k, v));
                self.model = Ghost(new_model);
                proof {
                    let n = old_self.entries@.len();
                    assert forall|j: int| 0 <= j < n implies #[trigger] self.key(j)
                        == old_self.key(j) by {}
                    assert(self.key(n as int) == k@);
                    assert forall|key: Seq<char>| #[trigger]
                        self.model@.contains_key(key) implies exists|t: int|
                        0 <= t < self.entries@.len() && #[trigger] self.key(t) == key by {
                        if key != k@ {
                            let t = choose|t: int|
                                0 <= t < old_self.entries@.len() && #[trigger] old_self.key(t)
                                    == key;
                            assert(self.key(t) == key);
                        } else {
                            assert(self.key(n as int) == key);
                        }
                    }
                }
            },
        }
    }

    /// Removes `k` and its value, if present.
    pub fn remove(&mut self, k: &str)
        requires
            old(self).wf(),
        ensures
            final(self).wf(),
            final(self)@ == old(self)@.remove(k@),
    {
        let ghost old_self = *self;
        match self.find(k) {
            Some(i) => {
                self.entries.remove(i);
                self.model = Ghost(old_self.model@.remove(k@));
                proof {
                    let n = old_self.entries@.len();
                    assert forall|j: int| 0 <= j < i implies #[trigger] self.key(j)
                        == old_self.key(j) by {}
                    assert forall|j: int| i <= j < n - 1 implies #[trigger] self.key(j)
                        == old_self.key(j + 1) by {}
                    assert forall|a: int, b: int| 0 <= a < b < self.entries@.len() implies
                        #[trigger] self.key(a) != #[trigger] self.key(b) by {
                        let a0 = if a < i { a } else { a + 1 };
                        let b0 = if b < i { b } else { b + 1 };
                        assert(self.key(a) == old_self.key(a0));
                        assert(self.key(b) == old_self.key(b0));
                    }
                    assert forall|j: int| 0 <= j < self.entries@.len() implies
                        self.model@.contains_key(#[trigger] self.key(j)) && self.model@[self.key(j)]
                            == self.value(j) by {
                        let j0 = if j < i { j } else { j + 1 };
                        assert(self.key(j) == old_self.key(j0));
                        assert(old_self.key(j0) != old_self.key(i as int));
                    }
                    assert forall|key: Seq<char>| #[trigger]
                        self.model@.contains_key(key) implies exists|t: int|
                        0 <= t < self.entries@.len() && #[trigger] self.key(t) == key by {
                        let t = choose|t: int|
                            0 <= t < old_self.entries@.len() && #[trigger] old_self.key(t) == key;
                        assert(t != i);
                        if t < i {
                            assert(self.key(t) == key);
                        } else {
                            assert(self.key(t - 1) == key);
                        }
                    }
                }
            },
            None => {
                proof {
                    assert(self.model@.remove(k@) =~= self.model@);
                }
            },
        }
    }

    /// Keeps only the entries whose value differs from `v`.
    pub fn retain_other_values(&mut self, v: &str)
        requires
            old(self).wf(),
        ensures
            final(self).wf(),
            final(self)@ == without_value(old(self)@, v@),
    {
        let ghost old_self = *self;
        let ghost target = old_self@.restrict(
            old_self@.dom().filter(|key: Seq<char>| old_self@[key] != v@),
        );
        let mut kept: Vec<(String, String)> = Vec::new();
        // origin[a] is the index in the old entries that kept[a] came from
        let ghost mut origin: Seq<int> = Seq::empty();
        let n = self.entries.len();
        let mut i: usize = 0;
        while i < n
            invariant
                n == old_self.entries@.len(),
                i <= n,
                old_self.wf(),
                *self == old_self,
                origin.len() == kept@.len(),
                forall|a: int, b: int|
                    0 <= a < b < origin.len() ==> #[trigger] origin[a] < #[trigger] origin[b],
                forall|a: int|
                    0 <= a < origin.len() ==> 0 <= #[trigger] origin[a] < i && old_self.key(origin[a])
                        == kept@[a].0@ && old_self.value(origin[a]) == kept@[a].1@
                        && old_self.value(origin[a]) != v@,
                forall|t: int|
                    0 <= t < i && old_self.value(t) != v@ ==> #[trigger] origin.contains(t),
            decreases n - i,
        {
            if !text_eq(self.entries[i].1.as_str(), v) {
                let k = self.entries[i].0.clone();
                let w = self.entries[i].1.clone();
                kept.push((k, w));
                proof {
                    let before = origin;
                    origin = origin.push(i as int);
                    assert forall|t: int| 0 <= t < i + 1 && old_self.value(t) != v@ implies #[trigger] origin.contains(t) by {
                        if t == i {
                            assert(origin[before.len() as int] == t);
                        } else {
                            assert(before.contains(t));
                            let a = choose|a: int| 0 <= a < before.len() && before[a] == t;
                            assert(origin[a] == t);
                        }
                    }
                }
            }
            i += 1;
        }
        self.entries = kept;
        self.model = Ghost(target);
        proof {
            assert(target.dom() =~= old_self@.dom().filter(|key: Seq<char>| old_self@[key] != v@));
            assert forall|a: int, b: int|
                0 <= a < b < self.entries@.len() implies #[trigger] self.key(a) != #[trigger] self.key(b) by {
                assert(origin[a] < origin[b]);
                assert(old_self.key(origin[a]) != old_self.key(origin[b]));
            }
            assert forall|j: int| 0 <= j < self.entries@.len() implies self.model@.contains_key(
                #[trigger] self.key(j),
            ) && self.model@[self.key(j)] == self.value(j) by {
                let t = origin[j];
                assert(old_self@[old_self.key(t)] == old_self.value(t));
            }
            assert forall|key: Seq<char>| #[trigger] self.model@.contains_key(key) implies exists|a: int|
                0 <= a < self.entries@.len() && #[trigger] self.key(a) == key by {
                let t = choose|t: int| 0 <= t < n && #[trigger] old_self.key(t) == key;
                assert(old_self@[key] == old_self.value(t));
                assert(origin.contains(t));
                let a = choose|a: int| 0 <= a < origin.len() && origin[a] == t;
                assert(self.key(a) == key);
            }
        }
    }

    /// The keys, each once, in no particular order.
    pub fn keys(&self) -> (r: Vec<String>)
        requires
            self.wf(),
        ensures
            r@.len() == self@.len(),
            forall|a: int, b: int| 0 <= a < b < r@.len() ==> #[trigger] r@[a]@ != #[trigger] r@[b]@,
            forall|a: int| 0 <= a < r@.len() ==> self@.contains_key(#[trigger] r@[a]@),
            forall|key: Seq<char>| #[trigger] self@.contains_key(key) ==> exists|a: int|
                0 <= a < r@.len() && #[trigger] r@[a]@ == key,
    {
        proof {
            self.lemma_dom_is_keys();
        }
        let mut r: Vec<String> = Vec::new();
        let n = self.entries.len();
        for i in 0..n
            invariant
                n == self.entries@.len(),
                self.wf(),
                r@.len() == i,
                forall|a: int| 0 <= a < i ==> #[trigger] r@[a]@ == self.key(a),
        {
            r.push(self.entries[i].0.clone());
        }
        proof {
            assert forall|a: int, b: int| 0 <= a < b < r@.len() implies #[trigger] r@[a]@ != #[trigger] r@[b]@ by {
                assert(self.key(a) != self.key(b));
            }
            assert forall|key: Seq<char>| #[trigger] self@.contains_key(key) implies exists|a: int|
                0 <= a < r@.len() && #[trigger] r@[a]@ == key by {
                let t = choose|t: int| 0 <= t < n && #[trigger] self.key(t) == key;
                assert(r@[t]@ == key);
            }
        }
        r
    }

    /// The keys whose value is `v`, each once, in no particular order.
    pub fn keys_with_value(&self, v: &str) -> (r: Vec<String>)
        requires
            self.wf(),
        ensures
            forall|a: int, b: int| 0 <= a < b < r@.len() ==> #[trigger] r@[a]@ != #[trigger] r@[b]@,
            forall|a: int|
                0 <= a < r@.len() ==> self@.contains_key(#[trigger] r@[a]@) && self@[r@[a]@] == v@,
            forall|key: Seq<char>|
                #[trigger] self@.contains_key(key) && self@[key] == v@ ==> exists|a: int|
                    0 <= a < r@.len() && #[trigger] r@[a]@ == key,
    {
        let mut r: Vec<String> = Vec::new();
        let ghost mut origin: Seq<int> = Seq::empty();
        let n = self.entries.len();
        let mut i: usize = 0;
        while i < n
            invariant
                n == self.entries@.len(),
                i <= n,
                self.wf(),
                origin.len() == r@.len(),
                forall|a: int, b: int|
                    0 <= a < b < origin.len() ==> #[trigger] origin[a] < #[trigger] origin[b],
                forall|a: int|
                    0 <= a < origin.len() ==> 0 <= #[trigger] origin[a] < i && self.key(origin[a])
                        == r@[a]@ && self.value(origin[a]) == v@,
                forall|t: int| 0 <= t < i && self.value(t) == v@ ==> #[trigger] origin.contains(t),
            decreases n - i,
        {
            if text_eq(self.entries[i].1.as_str(), v) {
                r.push(self.entries[i].0.clone());
                proof {
                    let before = origin;
                    origin = origin.push(i as int);
                    assert forall|t: int| 0 <= t < i + 1 && self.value(t) == v@ implies #[trigger] origin.contains(t) by {
                        if t == i {
                            assert(origin[before.len() as int] == t);
                        } else {
                            assert(before.contains(t));
                            let a = choose|a: int| 0 <= a < before.len() && before[a] == t;
                            assert(origin[a] == t);
                        }
                    }
                }
            }
            i += 1;
        }
        proof {
            assert forall|a: int, b: int| 0 <= a < b < r@.len() implies #[trigger] r@[a]@ != #[trigger] r@[b]@ by {
                assert(origin[a] < origin[b]);
                assert(self.key(origin[a]) != self.key(origin[b]));
            }
            assert forall|a: int|
                0 <= a < r@.len() implies self@.contains_key(#[trigger] r@[a]@) && self@[r@[a]@] == v@ by {
                let t = origin[a];
            }
            assert forall|key: Seq<char>| #[trigger] self@.contains_key(key) && self@[key] == v@ implies exists|a: int|
                0 <= a < r@.len() && #[trigger] r@[a]@ == key by {
                let t = choose|t: int| 0 <= t < n && #[trigger] self.key(t) == key;
                assert(self.value(t) == v@);
                assert(origin.contains(t));
                let a = choose|a: int| 0 <= a < origin.len() && origin[a] == t;
                assert(r@[a]@ == key);
            }
        }
        r
    }

    /// The entries as pairs, each key once, in no particular order.
    pub fn pairs(&self) -> (r: Vec<(String, String)>)
        requires
            self.wf(),
        ensures
            r@.len() == self@.len(),
            forall|a: int| 0 <= a < r@.len() ==> self@.contains_key(#[trigger] r@[a].0@) && self@[r@[a].0@] == r@[a].1@,
            forall|a: int, b: int| 0 <= a < b < r@.len() ==> #[trigger] r@[a].0@ != #[trigger] r@[b].0@,
    {
        proof {
            self.lemma_dom_is_keys();
        }
        let mut r: Vec<(String, String)> = Vec::new();
        let n = self.entries.len();
        let mut i: usize = 0;
        while i < n
            invariant
                n == self.entries@.len(),
                i <= n,
                self.wf(),
                r@.len() == i,
                forall|a: int| 0 <= a < i ==> #[trigger] r@[a].0@ == self.key(a) && r@[a].1@ == self.value(a),
            decreases n - i,
        {
            let k = self.entries[i].0.clone();
            let w = self.entries[i].1.clone();
            r.push((k, w));
            i += 1;
        }
        proof {
            assert forall|a: int, b: int| 0 <= a < b < r@.len() implies #[trigger] r@[a].0@ != #[trigger] r@[b].0@ by {
                assert(self.key(a) != self.key(b));
            }
        }
        r
    }
}


/// The category of each known extension when no configuration file exists.
pub open spec fn default_extension_map() -> Map<Seq<char>, Seq<char>> {
    map![
        "jpg"@ => "Images"@,
        "jpeg"@ => "Images"@,
        "png"@ => "Images"@,
        "gif"@ => "Images"@,
        "bmp"@ => "Images"@,
        "svg"@ => "Images"@,
        "webp"@ => "Images"@,
        "tiff"@ => "Images"@,
        "ico"@ => "Images"@,
        "pdf"@ => "Documents"@,
        "docx"@ => "Documents"@,
        "doc"@ => "Documents"@,
        "txt"@ => "Documents"@,
        "md"@ => "Documents"@,
        "odt"@ => "Documents"@,
        "rtf"@ => "Documents"@,
        "xlsx"@ => "Documents"@,
        "csv"@ => "Documents"@,
        "pptx"@ => "Documents"@,
        "ppt"@ => "Documents"@,
        "mp4"@ => "Videos"@,
        "mkv"@ => "Videos"@,
        "avi"@ => "Videos"@,
        "mov"@ => "Videos"@,
        "wmv"@ => "Videos"@,
        "flv"@ => "Videos"@,
        "webm"@ => "Videos"@,
        "mp3"@ => "Audio"@,
        "wav"@ => "Audio"@,
        "flac"@ => "Audio"@,
        "aac"@ => "Audio"@,
        "ogg"@ => "Audio"@,
        "wma"@ => "Audio"@,
        "m4a"@ => "Audio"@,
        "zip"@ => "Archives"@,
        "tar"@ => "Archives"@,
        "gz"@ => "Archives"@,
        "rar"@ => "Archives"@,
        "7z"@ => "Archives"@,
        "bz2"@ => "Archives"@,
        "xz"@ => "Archives"@,
        "rs"@ => "Code"@,
        "py"@ => "Code"@,
        "js"@ => "Code"@,
        "ts"@ => "Code"@,
        "c"@ => "Code"@,
        "cpp"@ => "Code"@,
        "h"@ => "Code"@,
        "java"@ => "Code"@,
        "go"@ => "Code"@,
        "rb"@ => "Code"@,
        "php"@ => "Code"@,
        "sh"@ => "Code"@,
        "html"@ => "Code"@,
        "css"@ => "Code"@,
        "exe"@ => "Installers"@,
        "msi"@ => "Installers"@,
        "deb"@ => "Installers"@,
        "rpm"@ => "Installers"@,
        "dmg"@ => "Installers"@,
        "apk"@ => "Installers"@
    ]
}

/// The default sort targets: each category, and `Others`, goes to a
/// directory of its own name, relative to the directory being sorted.
pub open spec fn default_sort_targets() -> Map<Seq<char>, Seq<char>> {
    map![
        "Images"@ => "Images"@,
        "Documents"@ => "Documents"@,
        "Videos"@ => "Videos"@,
        "Audio"@ => "Audio"@,
        "Archives"@ => "Archives"@,
        "Code"@ => "Code"@,
        "Installers"@ => "Installers"@,
        "Others"@ => "Others"@
    ]
}

fn put(m: &mut StringMap, k: &str, v: &str)
    requires
        old(m).wf(),
    ensures
        final(m).wf(),
        final(m)@ == old(m)@.insert(k@, v@),
{
    m.insert(owned(k), owned(v));
}

/// The configuration: extension to category, and category to target directory.
pub struct AppConfig {
    pub extension_map: StringMap,
    pub sort_targets: StringMap,
}

impl AppConfig {
    pub open spec fn wf(&self) -> bool {
        self.extension_map.wf() && self.sort_targets.wf()
    }
}

impl Default for AppConfig {
    /// The built-in configuration.
    fn default() -> (c: Self)
        ensures
            c.wf(),
            c.extension_map@ == default_extension_map(),
            c.sort_targets@ == default_sort_targets(),
    {
        let mut extension_map = StringMap::new();
        put(&mut extension_map, "jpg", "Images");
        put(&mut extension_map, "jpeg", "Images");
        put(&mut extension_map, "png", "Images");
        put(&mut extension_map, "gif", "Images");
        put(&mut extension_map, "bmp", "Images");
        put(&mut extension_map, "svg", "Images");
        put(&mut extension_map, "webp", "Images");
        put(&mut extension_map, "tiff", "Images");
        put(&mut extension_map, "ico", "Images");
        put(&mut extension_map, "pdf", "Documents");
        put(&mut extension_map, "docx", "Documents");
        put(&mut extension_map, "doc", "Documents");
        put(&mut extension_map, "txt", "Documents");
        put(&mut extension_map, "md", "Documents");
        put(&mut extension_map, "odt", "Documents");
        put(&mut extension_map, "rtf", "Documents");
        put(&mut extension_map, "xlsx", "Documents");
        put(&mut extension_map, "csv", "Documents");
        put(&mut extension_map, "pptx", "Documents");
        put(&mut extension_map, "ppt", "Documents");
        put(&mut extension_map, "mp4", "Videos");
        put(&mut extension_map, "mkv", "Videos");
        put(&mut extension_map, "avi", "Videos");
        put(&mut extension_map, "mov", "Videos");
        put(&mut extension_map, "wmv", "Videos");
        put(&mut extension_map, "flv", "Videos");
        put(&mut extension_map, "webm", "Videos");
        put(&mut extension_map, "mp3", "Audio");
        put(&mut extension_map, "wav", "Audio");
        put(&mut extension_map, "flac", "Audio");
        put(&mut extension_map, "aac", "Audio");
        put(&mut extension_map, "ogg", "Audio");
        put(&mut extension_map, "wma", "Audio");
        put(&mut extension_map, "m4a", "Audio");
        put(&mut extension_map, "zip", "Archives");
        put(&mut extension_map, "tar", "Archives");
        put(&mut extension_map, "gz", "Archives");
        put(&mut extension_map, "rar", "Archives");
        put(&mut extension_map, "7z", "Archives");
        put(&mut extension_map, "bz2", "Archives");
        put(&mut extension_map, "xz", "Archives");
        put(&mut extension_map, "rs", "Code");
        put(&mut extension_map, "py", "Code");
        put(&mut extension_map, "js", "Code");
        put(&mut extension_map, "ts", "Code");
        put(&mut extension_map, "c", "Code");
        put(&mut extension_map, "cpp", "Code");
        put(&mut extension_map, "h", "Code");
        put(&mut extension_map, "java", "Code");
        put(&mut extension_map, "go", "Code");
        put(&mut extension_map, "rb", "Code");
        put(&mut extension_map, "php", "Code");
        put(&mut extension_map, "sh", "Code");
        put(&mut extension_map, "html", "Code");
        put(&mut extension_map, "css", "Code");
        put(&mut extension_map, "exe", "Installers");
        put(&mut extension_map, "msi", "Installers");
        put(&mut extension_map, "deb", "Installers");
        put(&mut extension_map, "rpm", "Installers");
        put(&mut extension_map, "dmg", "Installers");
        put(&mut extension_map, "apk", "Installers");
        let mut sort_targets = StringMap::new();
        put(&mut sort_targets, "Images", "Images");
        put(&mut sort_targets, "Documents", "Documents");
        put(&mut sort_targets, "Videos", "Videos");
        put(&mut sort_targets, "Audio", "Audio");
        put(&mut sort_targets, "Archives", "Archives");
        put(&mut sort_targets, "Code", "Code");
        put(&mut sort_targets, "Installers", "Installers");
        put(&mut sort_targets, "Others", "Others");
        AppConfig { extension_map, sort_targets }
    }
}

} // verus!
