//! Package metadata: the records a package registry describes bundles
//! with, and the service-flag translation used when bundles are installed.
use vstd::prelude::*;

verus! {

/// Why package metadata is rejected.
#[derive(Debug, PartialEq)]
pub enum PkgError {
    /// The bundle holds no metadata entry.
    MissingMeta,
    /// A service names a permission flag that does not exist.
    InvalidFlags,
    /// The dependency graph has a cycle.
    DependencyCycle,
    /// A file's media kind cannot be told from its name.
    UnknownFileType(String),
    /// An account is used but not declared by the metadata.
    UnknownAccount(String),
    /// Two packages both declare the same account.
    AccountConflict(String),
    /// An account is required but no package declares it.
    MissingDepAccount(String),
    /// A package uses another without depending on it.
    MissingDepPackage(String),
    /// A package was not found in any index.
    PackageNotFound(String),
    /// A package appears twice in one index.
    DuplicatePackage(String),
}

/// A package named together with one exact version.
#[derive(Debug, PartialEq)]
pub struct PackageRef {
    pub name: String,
    pub version: String,
}

impl Clone for PackageRef {
    fn clone(&self) -> (r: Self)
        ensures
            r.name@ == self.name@,
            r.version@ == self.version@,
    {
        PackageRef { name: self.name.clone(), version: self.version.clone() }
    }
}

/// What a package says about itself: identity, description, dependencies,
/// and the accounts it declares.
#[derive(Debug, PartialEq)]
pub struct Meta {
    pub name: String,
    pub version: String,
    pub description: String,
    pub depends: Vec<PackageRef>,
    pub accounts: Vec<String>,
}

/// A digest of a package file.
#[derive(Debug, PartialEq)]
pub struct Checksum256 {
    pub digest: Vec<u8>,
}

impl Checksum256 {
    /// A digest is exactly thirty-two bytes.
    pub open spec fn wf(self) -> bool {
        self.digest@.len() == 32
    }
}

/// One index entry of a registry: package metadata together with where its
/// file lives and what it hashes to.
#[derive(Debug, PartialEq)]
pub struct PackageInfo {
    pub name: String,
    pub version: String,
    pub description: String,
    pub depends: Vec<PackageRef>,
    pub accounts: Vec<String>,
    pub sha256: Checksum256,
    pub file: String,
}

/// The views of a name list, pairwise.
pub open spec fn strs_views(ss: Seq<String>) -> Seq<Seq<char>> {
    Seq::new(
        ss.len(),
        |i: int|
            if 0 <= i < ss.len() {
                ss[i]@
            } else {
                Seq::empty()
            },
    )
}

/// Clone a reference list, element for element.
fn clone_refs(rs: &Vec<PackageRef>) -> (out: Vec<PackageRef>)
    ensures
        out@.len() == rs@.len(),
        forall|i: int|
            0 <= i < rs@.len() ==> (#[trigger] out@[i]).name@ == rs@[i].name@ && out@[i].version@
                == rs@[i].version@,
{
    let mut out: Vec<PackageRef> = Vec::new();
    let mut i: usize = 0;
    while i < rs.len()
        invariant
            i <= rs@.len(),
            out@.len() == i,
            forall|j: int|
                0 <= j < i ==> (#[trigger] out@[j]).name@ == rs@[j].name@ && out@[j].version@
                    == rs@[j].version@,
        decreases rs@.len() - i,
    {
        out.push(rs[i].clone());
        i = i + 1;
    }
    out
}

/// Clone a name list, element for element.
fn clone_strs(ss: &Vec<String>) -> (out: Vec<String>)
    ensures
        out@.len() == ss@.len(),
        forall|i: int| 0 <= i < ss@.len() ==> (#[trigger] out@[i])@ == ss@[i]@,
{
    let mut out: Vec<String> = Vec::new();
    let mut i: usize = 0;
    while i < ss.len()
        invariant
            i <= ss@.len(),
            out@.len() == i,
            forall|j: int| 0 <= j < i ==> (#[trigger] out@[j])@ == ss@[j]@,
        decreases ss@.len() - i,
    {
        out.push(ss[i].clone());
        i = i + 1;
    }
    out
}

impl PackageInfo {
    /// The metadata part of an index entry, with the file and digest left
    /// behind.
    pub fn meta(&self) -> (m: Meta)
        ensures
            m.name@ == self.name@,
            m.version@ == self.version@,
            m.description@ == self.description@,
            m.depends@.len() == self.depends@.len(),
            forall|i: int|
                0 <= i < self.depends@.len() ==> (#[trigger] m.depends@[i]).name@
                    == self.depends@[i].name@ && m.depends@[i].version@
                    == self.depends@[i].version@,
            m.accounts@.len() == self.accounts@.len(),
            forall|i: int|
                0 <= i < self.accounts@.len() ==> (#[trigger] m.accounts@[i])@
                    == self.accounts@[i]@,
    {
        Meta {
            name: self.name.clone(),
            version: self.version.clone(),
            description: self.description.clone(),
            depends: clone_refs(&self.depends),
            accounts: clone_strs(&self.accounts),
        }
    }
}

/// A registry laid out as a directory with an index file beside the
/// package files. The directory itself is read elsewhere; this only names
/// it.
#[derive(Debug, PartialEq)]
pub struct DirectoryRegistry {
    pub dir: String,
}

impl DirectoryRegistry {
    /// A registry rooted at the given directory.
    pub fn new(dir: String) -> (r: Self)
        ensures
            r.dir@ == dir@,
    {
        DirectoryRegistry { dir }
    }
}

/// The permission bit a service flag stands for, or zero for no flag.
pub open spec fn flag_bit(s: Seq<char>) -> u64 {
    if s == "allowSudo"@ {
        0x1
    } else if s == "allowWriteNative"@ {
        0x2
    } else if s == "isSubjective"@ {
        0x4
    } else if s == "allowWriteSubjective"@ {
        0x8
    } else if s == "canNotTimeOut"@ {
        0x10
    } else if s == "canSetTimeLimit"@ {
        0x20
    } else if s == "isAuthService"@ {
        0x40
    } else {
        0
    }
}

/// Whether the text names a service flag at all.
pub open spec fn is_flag(s: Seq<char>) -> bool {
    flag_bit(s) != 0
}

/// The combined permission bits of a flag list, or nothing if some name is
/// no flag.
pub open spec fn flags_value(fs: Seq<Seq<char>>) -> Option<u64>
    decreases fs.len(),
{
    if fs.len() == 0 {
        Option::Some(0u64)
    } else if !is_flag(fs[0]) {
        Option::None
    } else {
        match flags_value(fs.skip(1)) {
            Option::Some(rest) => Option::Some(flag_bit(fs[0]) | rest),
            Option::None => Option::None,
        }
    }
}

/// The permission bit one flag name stands for.
fn flag_bit_of(flag: &String) -> (r: u64)
    ensures
        r == flag_bit(flag@),
{
    if *flag == "allowSudo".to_owned() {
        0x1
    } else if *flag == "allowWriteNative".to_owned() {
        0x2
    } else if *flag == "isSubjective".to_owned() {
        0x4
    } else if *flag == "allowWriteSubjective".to_owned() {
        0x8
    } else if *flag == "canNotTimeOut".to_owned() {
        0x10
    } else if *flag == "canSetTimeLimit".to_owned() {
        0x20
    } else if *flag == "isAuthService".to_owned() {
        0x40
    } else {
        0
    }
}

/// Turn a service's flag names into its permission bits; a name that is no
/// flag rejects the whole list.
pub fn translate_flags(flags: &Vec<String>) -> (r: Result<u64, PkgError>)
    ensures
        r matches Ok(bits) ==> flags_value(strs_views(flags@)) == Option::Some(bits),
        r is Err ==> flags_value(strs_views(flags@)) is None,
        r is Err ==> r == Result::<u64, PkgError>::Err(PkgError::InvalidFlags),
{
    let ghost fb = strs_views(flags@);
    let mut result: u64 = 0;
    let mut i: usize = 0;
    proof {
        assert(fb.skip(0) =~= fb);
        match flags_value(fb) {
            Option::Some(rest) => {
                assert(0u64 | rest == rest) by (bit_vector);
            },
            Option::None => {},
        }
    }
    while i < flags.len()
        invariant
            i <= flags@.len(),
            fb == strs_views(flags@),
            flags_value(fb) == match flags_value(fb.skip(i as int)) {
                Option::Some(rest) => Option::Some(result | rest),
                Option::None => Option::<u64>::None,
            },
        decreases flags@.len() - i,
    {
        let bit = flag_bit_of(&flags[i]);
        if bit == 0 {
            proof {
                assert(fb.skip(i as int)[0] == fb[i as int]);
            }
            return Err(PkgError::InvalidFlags);
        }
        proof {
            assert(fb.skip(i as int)[0] == fb[i as int]);
            assert(fb.skip(i as int).skip(1) =~= fb.skip(i + 1));
            lemma_or_assoc_fold(result, bit, fb.skip(i + 1));
        }
        result = result | bit;
        i = i + 1;
    }
    proof {
        assert(fb.skip(flags@.len() as int).len() == 0);
        assert(flags_value(fb.skip(flags@.len() as int)) == Option::Some(0u64));
        let r0 = result;
        assert(r0 | 0u64 == r0) by (bit_vector);
    }
    Ok(result)
}

/// Folding one more bit into the accumulator commutes with the list fold.
proof fn lemma_or_assoc_fold(acc: u64, bit: u64, rest: Seq<Seq<char>>)
    ensures
        match flags_value(rest) {
            Option::Some(r) => (acc | (bit | r)) == ((acc | bit) | r),
            Option::None => true,
        },
{
    match flags_value(rest) {
        Option::Some(r) => {
            assert((acc | (bit | r)) == ((acc | bit) | r)) by (bit_vector);
        },
        Option::None => {},
    }
}

} // verus!
