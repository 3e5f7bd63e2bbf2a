//! The set of packages a chain or a registry knows, as name-and-version
//! pairs.
use crate::package::PackageRef;
use vstd::prelude::*;
use vstd::utf8::encode_utf8;

verus! {

/// Lexicographic order on byte strings, allowing equality.
pub open spec fn bytes_le(a: Seq<u8>, b: Seq<u8>) -> bool
    decreases a.len(),
{
    if a.len() == 0 {
        true
    } else if b.len() == 0 {
        false
    } else if a[0] < b[0] {
        true
    } else if a[0] > b[0] {
        false
    } else {
        bytes_le(a.skip(1), b.skip(1))
    }
}

/// The order tries both ways.
pub proof fn lemma_bytes_le_total(a: Seq<u8>, b: Seq<u8>)
    ensures
        bytes_le(a, b) || bytes_le(b, a),
    decreases a.len(),
{
    if a.len() > 0 && b.len() > 0 && a[0] == b[0] {
        lemma_bytes_le_total(a.skip(1), b.skip(1));
    }
}

/// The order chains.
pub proof fn lemma_bytes_le_trans(a: Seq<u8>, b: Seq<u8>, c: Seq<u8>)
    requires
        bytes_le(a, b),
        bytes_le(b, c),
    ensures
        bytes_le(a, c),
    decreases a.len(),
{
    if a.len() > 0 && b.len() > 0 && c.len() > 0 && a[0] == b[0] && b[0] == c[0] {
        lemma_bytes_le_trans(a.skip(1), b.skip(1), c.skip(1));
    }
}

/// Whether one name sorts at or before another, by their UTF-8 bytes.
pub(crate) fn str_le(a: &String, b: &String) -> (r: bool)
    ensures
        r == bytes_le(encode_utf8(a@), encode_utf8(b@)),
{
    let ab = a.as_str().as_bytes();
    let bb = b.as_str().as_bytes();
    let ghost ga = encode_utf8(a@);
    let ghost gb = encode_utf8(b@);
    let mut i: usize = 0;
    proof {
        assert(ga.skip(0) =~= ga);
        assert(gb.skip(0) =~= gb);
    }
    loop
        invariant
            ga == encode_utf8(a@),
            gb == encode_utf8(b@),
            ab@ == ga,
            bb@ == gb,
            i <= ga.len(),
            i <= gb.len(),
            bytes_le(ga, gb) == bytes_le(ga.skip(i as int), gb.skip(i as int)),
        decreases ga.len() - i,
    {
        if i == ab.len() {
            proof {
                assert(ga.skip(i as int).len() == 0);
                assert(bytes_le(ga, gb));
            }
            return true;
        }
        if i == bb.len() {
            proof {
                assert(gb.skip(i as int).len() == 0);
                assert(ga.skip(i as int).len() > 0);
                assert(!bytes_le(ga, gb));
            }
            return false;
        }
        let ca = *vstd::slice::slice_index_get(ab, i);
        let cb = *vstd::slice::slice_index_get(bb, i);
        proof {
            assert(ga.skip(i as int)[0] == ga[i as int]);
            assert(gb.skip(i as int)[0] == gb[i as int]);
            assert(ga.skip(i as int).skip(1) =~= ga.skip(i + 1));
            assert(gb.skip(i as int).skip(1) =~= gb.skip(i + 1));
        }
        if ca < cb {
            proof {
                assert(bytes_le(ga.skip(i as int), gb.skip(i as int)));
            }
            return true;
        }
        if ca > cb {
            proof {
                assert(!bytes_le(ga.skip(i as int), gb.skip(i as int)));
            }
            return false;
        }
        i = i + 1;
    }
}

/// A list of installed or available packages: which versions are known
/// under each name.
pub struct PackageList {
    entries: Vec<PackageRef>,
}

impl PackageList {
    /// How many name-and-version pairs the list holds.
    pub closed spec fn count(self) -> nat {
        self.entries@.len()
    }

    /// The name of one pair.
    pub closed spec fn name_at(self, i: int) -> Seq<char> {
        self.entries@[i].name@
    }

    /// The version of one pair.
    pub closed spec fn version_at(self, i: int) -> Seq<char> {
        self.entries@[i].version@
    }

    /// Whether the list knows this exact version of this name.
    pub open spec fn has_version(self, n: Seq<char>, v: Seq<char>) -> bool {
        exists|i: int|
            0 <= i < self.count() && #[trigger] self.name_at(i) == n && self.version_at(i) == v
    }

    /// Whether the list knows the name under any version.
    pub open spec fn has_name(self, n: Seq<char>) -> bool {
        exists|i: int| 0 <= i < self.count() && #[trigger] self.name_at(i) == n
    }

    /// No pair appears twice.
    pub closed spec fn wf(self) -> bool {
        forall|i: int, j: int|
            0 <= i < j < self.entries@.len() ==> !((#[trigger] self.entries@[i].name@)
                == (#[trigger] self.entries@[j].name@) && self.entries@[i].version@
                == self.entries@[j].version@)
    }

    /// An empty list: it knows nothing.
    pub fn new() -> (r: PackageList)
        ensures
            r.wf(),
            r.count() == 0,
            forall|n: Seq<char>, v: Seq<char>| !(#[trigger] r.has_version(n, v)),
    {
        PackageList { entries: Vec::new() }
    }

    /// Whether the list knows this exact version of this name.
    pub fn contains_version(&self, name: &str, version: &str) -> (r: bool)
        ensures
            r == self.has_version(name@, version@),
    {
        let kn = name.to_owned();
        let kv = version.to_owned();
        let mut i: usize = 0;
        while i < self.entries.len()
            invariant
                i <= self.entries@.len(),
                kn@ == name@,
                kv@ == version@,
                forall|j: int|
                    0 <= j < i ==> !(#[trigger] self.name_at(j) == name@ && self.version_at(j)
                        == version@),
            decreases self.entries@.len() - i,
        {
            if self.entries[i].name == kn && self.entries[i].version == kv {
                proof {
                    assert(self.name_at(i as int) == name@ && self.version_at(i as int)
                        == version@);
                }
                return true;
            }
            i = i + 1;
        }
        false
    }

    /// Whether the list knows the name under any version.
    pub fn contains_name(&self, name: &String) -> (r: bool)
        ensures
            r == self.has_name(name@),
    {
        let mut i: usize = 0;
        while i < self.entries.len()
            invariant
                i <= self.entries@.len(),
                forall|j: int| 0 <= j < i ==> !(#[trigger] self.name_at(j) == name@),
            decreases self.entries@.len() - i,
        {
            if self.entries[i].name == *name {
                proof {
                    assert(self.name_at(i as int) == name@);
                }
                return true;
            }
            i = i + 1;
        }
        false
    }

    /// Record one more version under a name; recording a pair the list
    /// already knows changes nothing.
    pub fn insert(&mut self, name: String, version: String)
        ensures
            old(self).wf() ==> final(self).wf(),
            forall|n: Seq<char>, v: Seq<char>|
                #[trigger] final(self).has_version(n, v) == (old(self).has_version(n, v) || (n
                    == name@ && v == version@)),
    {
        if self.contains_version(name.as_str(), version.as_str()) {
            return;
        }
        let ghost prev = self.entries@;
        let ghost nm = name@;
        let ghost vr = version@;
        self.entries.push(PackageRef { name, version });
        proof {
            assert(forall|j: int| 0 <= j < prev.len() ==> self.entries@[j] == prev[j]);
            if old(self).wf() {
                assert(self.wf()) by {
                    assert forall|i: int, j: int|
                        0 <= i < j < self.entries@.len() implies !((
                    #[trigger] self.entries@[i].name@) == (#[trigger] self.entries@[j].name@)
                        && self.entries@[i].version@ == self.entries@[j].version@) by {
                        if j == prev.len() as int {
                            if self.entries@[i].name@ == nm && self.entries@[i].version@ == vr {
                                assert(old(self).name_at(i) == nm && old(self).version_at(i)
                                    == vr);
                                assert(old(self).has_version(nm, vr));
                            }
                        }
                    }
                }
            }
            assert forall|n: Seq<char>, v: Seq<char>|
                #[trigger] self.has_version(n, v) == (old(self).has_version(n, v) || (n == name@
                    && v == version@)) by {
                if old(self).has_version(n, v) {
                    let i = choose|i: int|
                        0 <= i < old(self).count() && #[trigger] old(self).name_at(i) == n && old(
                            self,
                        ).version_at(i) == v;
                    assert(self.name_at(i) == n && self.version_at(i) == v);
                }
                if n == name@ && v == version@ {
                    assert(self.name_at(prev.len() as int) == n && self.version_at(
                        prev.len() as int,
                    ) == v);
                }
                if self.has_version(n, v) {
                    let i = choose|i: int|
                        0 <= i < self.count() && #[trigger] self.name_at(i) == n
                            && self.version_at(i) == v;
                    if i < prev.len() {
                        assert(old(self).name_at(i) == n && old(self).version_at(i) == v);
                    }
                }
            }
        }
    }

    /// Every pair the list knows, in its own order.
    pub fn package_refs(&self) -> (out: Vec<PackageRef>)
        ensures
            out@.len() == self.count(),
            forall|i: int|
                0 <= i < self.count() ==> (#[trigger] out@[i]).name@ == self.name_at(i)
                    && out@[i].version@ == self.version_at(i),
    {
        let mut out: Vec<PackageRef> = Vec::new();
        let mut i: usize = 0;
        while i < self.entries.len()
            invariant
                i <= self.entries@.len(),
                out@.len() == i,
                forall|j: int|
                    0 <= j < i ==> (#[trigger] out@[j]).name@ == self.name_at(j)
                        && out@[j].version@ == self.version_at(j),
            decreases self.entries@.len() - i,
        {
            out.push(self.entries[i].clone());
            i = i + 1;
        }
        out
    }

    /// The names the list knows, each once, sorted by their UTF-8 bytes.
    #[verifier::rlimit(50)]
    pub fn into_vec(self) -> (out: Vec<String>)
        ensures
            forall|i: int| 0 <= i < out@.len() ==> self.has_name((#[trigger] out@[i])@),
            forall|n: Seq<char>|
                #[trigger] self.has_name(n) ==> exists|i: int| 0 <= i < out@.len() && out@[i]@
                    == n,
            forall|i: int, j: int| 0 <= i < j < out@.len() ==> (#[trigger] out@[i])@ != (
            #[trigger] out@[j])@,
            forall|i: int, j: int|
                0 <= i < j < out@.len() ==> bytes_le(
                    encode_utf8((#[trigger] out@[i])@),
                    encode_utf8((#[trigger] out@[j])@),
                ),
    {
        let mut names: Vec<String> = Vec::new();
        let mut i: usize = 0;
        while i < self.entries.len()
            invariant
                i <= self.entries@.len(),
                forall|k: int| 0 <= k < names@.len() ==> self.has_name((#[trigger] names@[k])@),
                forall|j: int|
                    0 <= j < i ==> exists|k: int|
                        0 <= k < names@.len() && names@[k]@ == #[trigger] self.name_at(j),
                forall|k1: int, k2: int|
                    0 <= k1 < k2 < names@.len() ==> (#[trigger] names@[k1])@ != (
                    #[trigger] names@[k2])@,
                forall|k1: int, k2: int|
                    0 <= k1 < k2 < names@.len() ==> bytes_le(
                        encode_utf8((#[trigger] names@[k1])@),
                        encode_utf8((#[trigger] names@[k2])@),
                    ),
            decreases self.entries@.len() - i,
        {
            let nm = &self.entries[i].name;
            let mut seen = false;
            let mut k: usize = 0;
            while k < names.len()
                invariant
                    k <= names@.len(),
                    seen ==> exists|k2: int| 0 <= k2 < names@.len() && names@[k2]@ == nm@,
                    !seen ==> forall|k2: int| 0 <= k2 < k ==> (#[trigger] names@[k2])@ != nm@,
                decreases names@.len() - k,
            {
                if names[k] == *nm {
                    seen = true;
                    proof {
                        assert(names@[k as int]@ == nm@);
                    }
                    k = names.len();
                } else {
                    k = k + 1;
                }
            }
            if !seen {
                let mut p: usize = 0;
                loop
                    invariant
                        p <= names@.len(),
                        forall|q: int|
                            0 <= q < p ==> bytes_le(
                                encode_utf8((#[trigger] names@[q])@),
                                encode_utf8(nm@),
                            ),
                    ensures
                        p <= names@.len(),
                        forall|q: int|
                            0 <= q < p ==> bytes_le(
                                encode_utf8((#[trigger] names@[q])@),
                                encode_utf8(nm@),
                            ),
                        p < names@.len() ==> bytes_le(
                            encode_utf8(nm@),
                            encode_utf8(names@[p as int]@),
                        ),
                    decreases names@.len() - p,
                {
                    if p == names.len() {
                        break;
                    }
                    if str_le(&names[p], nm) {
                        p = p + 1;
                    } else {
                        proof {
                            lemma_bytes_le_total(
                                encode_utf8(names@[p as int]@),
                                encode_utf8(nm@),
                            );
                        }
                        break;
                    }
                }
                let ghost prevn = names@;
                let ghost pi = p as int;
                names.insert(p, nm.clone());
                proof {
                    assert(names@[pi]@ == self.name_at(i as int));
                    assert(forall|q: int| 0 <= q < pi ==> names@[q] == prevn[q]);
                    assert(forall|q: int|
                        pi < q < names@.len() ==> names@[q] == prevn[q - 1]);
                    assert forall|j: int| 0 <= j < i + 1 implies exists|k2: int|
                        0 <= k2 < names@.len() && names@[k2]@ == #[trigger] self.name_at(j) by {
                        if j < i {
                            let k0 = choose|k2: int|
                                0 <= k2 < prevn.len() && prevn[k2]@ == #[trigger] self.name_at(j);
                            if k0 < pi {
                                assert(names@[k0]@ == self.name_at(j));
                            } else {
                                assert(names@[k0 + 1]@ == self.name_at(j));
                            }
                        } else {
                            assert(names@[pi]@ == self.name_at(j));
                        }
                    }
                    assert forall|k1: int, k2: int|
                        0 <= k1 < k2 < names@.len() implies bytes_le(
                        encode_utf8((#[trigger] names@[k1])@),
                        encode_utf8((#[trigger] names@[k2])@),
                    ) && (#[trigger] names@[k1])@ != (#[trigger] names@[k2])@ by {
                        let a1: int = if k1 < pi {
                            k1
                        } else {
                            k1 - 1
                        };
                        let a2: int = if k2 < pi {
                            k2
                        } else {
                            k2 - 1
                        };
                        if k1 == pi {
                            assert(names@[k2] == prevn[a2]);
                            assert(bytes_le(encode_utf8(nm@), encode_utf8(prevn[pi]@)));
                            if a2 > pi {
                                lemma_bytes_le_trans(
                                    encode_utf8(nm@),
                                    encode_utf8(prevn[pi]@),
                                    encode_utf8(prevn[a2]@),
                                );
                            }
                        } else if k2 == pi {
                            assert(names@[k1] == prevn[a1]);
                            assert(bytes_le(encode_utf8(prevn[a1]@), encode_utf8(nm@)));
                        } else {
                            assert(names@[k1] == prevn[a1]);
                            assert(names@[k2] == prevn[a2]);
                        }
                    }
                }
            } else {
                proof {
                    assert(exists|k2: int|
                        0 <= k2 < names@.len() && names@[k2]@ == self.name_at(i as int));
                }
            }
            i = i + 1;
        }
        names
    }

    /// The two lists side by side, the other's names deciding: a name the
    /// other knows keeps exactly the other's versions, any other name keeps
    /// this list's.
    pub fn union(self, other: PackageList) -> (r: PackageList)
        ensures
            forall|n: Seq<char>, v: Seq<char>|
                #[trigger] r.has_version(n, v) == if other.has_name(n) {
                    other.has_version(n, v)
                } else {
                    self.has_version(n, v)
                },
    {
        let kept = keep_unnamed(&self.entries, &other);
        let ghost keptv = kept@;
        let mut result = kept;
        let mut tail = other.entries;
        let ghost tailv = tail@;
        result.append(&mut tail);
        let r = PackageList { entries: result };
        proof {
            assert(r.entries@ =~= keptv + tailv);
            assert forall|n: Seq<char>, v: Seq<char>|
                #[trigger] r.has_version(n, v) == if other.has_name(n) {
                    other.has_version(n, v)
                } else {
                    self.has_version(n, v)
                } by {
                lemma_vec_has_concat(keptv, tailv, n, v);
                lemma_list_vec_has(self, n, v);
                assert(r.has_version(n, v) == vec_has(keptv + tailv, n, v)) by {
                    lemma_list_vec_has(r, n, v);
                }
                assert(other.has_version(n, v) == vec_has(tailv, n, v)) by {
                    lemma_list_vec_has(other, n, v);
                }
                if other.has_version(n, v) {
                    let i = choose|i: int|
                        0 <= i < other.count() && #[trigger] other.name_at(i) == n
                            && other.version_at(i) == v;
                    assert(other.has_name(n));
                }
            }
        }
        r
    }

    /// This list with every name the other knows taken out.
    pub fn difference(self, other: PackageList) -> (r: PackageList)
        ensures
            forall|n: Seq<char>, v: Seq<char>|
                #[trigger] r.has_version(n, v) == (self.has_version(n, v) && !other.has_name(n)),
    {
        let kept = keep_unnamed(&self.entries, &other);
        let r = PackageList { entries: kept };
        proof {
            assert forall|n: Seq<char>, v: Seq<char>|
                #[trigger] r.has_version(n, v) == (self.has_version(n, v) && !other.has_name(
                    n,
                )) by {
                lemma_list_vec_has(r, n, v);
                lemma_list_vec_has(self, n, v);
            }
        }
        r
    }
}

/// Whether a pair list holds this exact name and version.
pub open spec fn vec_has(s: Seq<PackageRef>, n: Seq<char>, v: Seq<char>) -> bool {
    exists|i: int| 0 <= i < s.len() && (#[trigger] s[i]).name@ == n && s[i].version@ == v
}

/// A list and the pair sequence it holds agree.
proof fn lemma_list_vec_has(l: PackageList, n: Seq<char>, v: Seq<char>)
    ensures
        l.has_version(n, v) == vec_has(l.entries@, n, v),
{
    if l.has_version(n, v) {
        let i = choose|i: int|
            0 <= i < l.count() && #[trigger] l.name_at(i) == n && l.version_at(i) == v;
        assert((l.entries@[i]).name@ == n && l.entries@[i].version@ == v);
    }
    if vec_has(l.entries@, n, v) {
        let i = choose|i: int|
            0 <= i < l.entries@.len() && (#[trigger] l.entries@[i]).name@ == n
                && l.entries@[i].version@ == v;
        assert(l.name_at(i) == n && l.version_at(i) == v);
    }
}

/// A pair is in a concatenation exactly when it is in one part.
proof fn lemma_vec_has_concat(a: Seq<PackageRef>, b: Seq<PackageRef>, n: Seq<char>, v: Seq<char>)
    ensures
        vec_has(a + b, n, v) == (vec_has(a, n, v) || vec_has(b, n, v)),
{
    if vec_has(a, n, v) {
        let i = choose|i: int|
            0 <= i < a.len() && (#[trigger] a[i]).name@ == n && a[i].version@ == v;
        assert(((a + b)[i]).name@ == n && (a + b)[i].version@ == v);
    }
    if vec_has(b, n, v) {
        let i = choose|i: int|
            0 <= i < b.len() && (#[trigger] b[i]).name@ == n && b[i].version@ == v;
        assert(((a + b)[a.len() + i]).name@ == n && (a + b)[a.len() + i].version@ == v);
    }
    if vec_has(a + b, n, v) {
        let i = choose|i: int|
            0 <= i < (a + b).len() && (#[trigger] (a + b)[i]).name@ == n && (a + b)[i].version@
                == v;
        if i < a.len() {
            assert(a[i].name@ == n && a[i].version@ == v);
        } else {
            assert(b[i - a.len()].name@ == n && b[i - a.len()].version@ == v);
        }
    }
}

/// The pairs of a list whose names another list does not know.
fn keep_unnamed(entries: &Vec<PackageRef>, other: &PackageList) -> (kept: Vec<PackageRef>)
    ensures
        forall|n: Seq<char>, v: Seq<char>|
            #[trigger] vec_has(kept@, n, v) == (vec_has(entries@, n, v) && !other.has_name(n)),
{
    let mut kept: Vec<PackageRef> = Vec::new();
    let mut i: usize = 0;
    proof {
        assert(entries@.subrange(0, 0).len() == 0);
    }
    while i < entries.len()
        invariant
            i <= entries@.len(),
            forall|n: Seq<char>, v: Seq<char>|
                #[trigger] vec_has(kept@, n, v) == (vec_has(entries@.subrange(0, i as int), n, v)
                    && !other.has_name(n)),
        decreases entries@.len() - i,
    {
        let ghost pre = entries@.subrange(0, i as int);
        let ghost post = entries@.subrange(0, i + 1);
        proof {
            assert(post =~= pre.push(entries@[i as int]));
        }
        if !other.contains_name(&entries[i].name) {
            let ghost prevk = kept@;
            let c = entries[i].clone();
            proof {
                assert(c.name@ == entries@[i as int].name@ && c.version@
                    == entries@[i as int].version@);
            }
            kept.push(c);
            proof {
                assert(kept@ =~= prevk.push(c));
                assert forall|n: Seq<char>, v: Seq<char>|
                    #[trigger] vec_has(kept@, n, v) == (vec_has(post, n, v) && !other.has_name(
                        n,
                    )) by {
                    lemma_vec_has_push(prevk, c, n, v);
                    lemma_vec_has_push(pre, entries@[i as int], n, v);
                }
            }
        } else {
            proof {
                assert forall|n: Seq<char>, v: Seq<char>|
                    #[trigger] vec_has(kept@, n, v) == (vec_has(post, n, v) && !other.has_name(
                        n,
                    )) by {
                    lemma_vec_has_push(pre, entries@[i as int], n, v);
                }
            }
        }
        i = i + 1;
    }
    proof {
        assert(entries@.subrange(0, entries@.len() as int) =~= entries@);
    }
    kept
}

/// A pair is in a pushed list exactly when it is the new pair or an old one.
proof fn lemma_vec_has_push(s: Seq<PackageRef>, x: PackageRef, n: Seq<char>, v: Seq<char>)
    ensures
        vec_has(s.push(x), n, v) == (vec_has(s, n, v) || (x.name@ == n && x.version@ == v)),
{
    if vec_has(s, n, v) {
        let i = choose|i: int|
            0 <= i < s.len() && (#[trigger] s[i]).name@ == n && s[i].version@ == v;
        assert((s.push(x)[i]).name@ == n && s.push(x)[i].version@ == v);
    }
    if x.name@ == n && x.version@ == v {
        assert((s.push(x)[s.len() as int]).name@ == n && s.push(x)[s.len() as int].version@ == v);
    }
    if vec_has(s.push(x), n, v) {
        let i = choose|i: int|
            0 <= i < s.push(x).len() && (#[trigger] s.push(x)[i]).name@ == n
                && s.push(x)[i].version@ == v;
        if i < s.len() {
            assert(s[i].name@ == n && s[i].version@ == v);
        }
    }
}

} // verus!
