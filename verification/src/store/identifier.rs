//! Identifiers, which name the namespace of a module, and paths, which
//! route a query.

use vstd::prelude::*;
use vstd::string::StringSliceAdditionalSpecFns;
use crate::store::height::StoreError;
use crate::store::key::{bytes_eq, copy_bytes};

verus! {

/// The byte that separates a namespace from a key, and one segment of a
/// path from the next: `/`.
pub const SEPARATOR: u8 = 47;

/// Whether an identifier may hold the byte: an ASCII letter or digit, or one
/// of `. _ + - # [ ] < >`.
pub open spec fn allowed(b: u8) -> bool {
    ||| 48 <= b <= 57
    ||| 65 <= b <= 90
    ||| 97 <= b <= 122
    ||| b == 46
    ||| b == 95
    ||| b == 43
    ||| b == 45
    ||| b == 35
    ||| b == 91
    ||| b == 93
    ||| b == 60
    ||| b == 62
}

/// Whether the bytes make an identifier: at least one byte, each of them
/// allowed. The separator is not allowed, so no identifier holds one.
pub open spec fn is_identifier(s: Seq<u8>) -> bool {
    s.len() > 0 && forall|i: int| 0 <= i < s.len() ==> allowed(#[trigger] s[i])
}

/// Whether the bytes make a path: identifiers joined by separators, at least
/// one of them. That is: only allowed bytes and separators, no separator at
/// either end, and no two separators in a row.
pub open spec fn is_path(s: Seq<u8>) -> bool {
    &&& s.len() > 0
    &&& s[0] != SEPARATOR
    &&& s[s.len() - 1] != SEPARATOR
    &&& forall|i: int| 0 <= i < s.len() ==> allowed(#[trigger] s[i]) || s[i] == SEPARATOR
    &&& forall|i: int|
        0 <= i < s.len() - 1 ==> !(#[trigger] s[i] == SEPARATOR && s[i + 1] == SEPARATOR)
}

/// The key under which namespace `prefix` keeps `key`: the prefix, a
/// separator, the key.
pub open spec fn prefixed(prefix: Seq<u8>, key: Seq<u8>) -> Seq<u8> {
    prefix.push(SEPARATOR) + key
}

/// Whether `key` lies in the namespace `prefix`.
pub open spec fn in_namespace(prefix: Seq<u8>, key: Seq<u8>) -> bool {
    exists|suffix: Seq<u8>| key == prefixed(prefix, suffix)
}

/// Two different identifiers never give the same key, whatever the keys in
/// their namespaces are.
pub proof fn lemma_namespaces_disjoint(a: Seq<u8>, b: Seq<u8>, ka: Seq<u8>, kb: Seq<u8>)
    requires
        is_identifier(a),
        is_identifier(b),
        a != b,
    ensures
        prefixed(a, ka) != prefixed(b, kb),
{
    let x = prefixed(a, ka);
    let y = prefixed(b, kb);
    if x == y {
        if a.len() < b.len() {
            assert(x[a.len() as int] == SEPARATOR);
            assert(y[a.len() as int] == b[a.len() as int]);
        } else if b.len() < a.len() {
            assert(y[b.len() as int] == SEPARATOR);
            assert(x[b.len() as int] == a[b.len() as int]);
        } else {
            assert forall|i: int| 0 <= i < a.len() implies a[i] == b[i] by {
                assert(x[i] == a[i]);
                assert(y[i] == b[i]);
            }
            assert(a =~= b);
        }
    }
}

/// Within one namespace different keys stay different.
pub proof fn lemma_prefixed_injective(p: Seq<u8>, ka: Seq<u8>, kb: Seq<u8>)
    requires
        prefixed(p, ka) == prefixed(p, kb),
    ensures
        ka == kb,
{
    let x = prefixed(p, ka);
    let y = prefixed(p, kb);
    assert(x.len() == p.len() + 1 + ka.len());
    assert(y.len() == p.len() + 1 + kb.len());
    assert forall|i: int| 0 <= i < ka.len() implies ka[i] == kb[i] by {
        assert(x[p.len() + 1 + i] == ka[i]);
        assert(y[p.len() + 1 + i] == kb[i]);
    }
    assert(ka =~= kb);
}

/// A key of one namespace lies in no other.
pub proof fn lemma_not_in_other_namespace(a: Seq<u8>, b: Seq<u8>, key: Seq<u8>)
    requires
        is_identifier(a),
        is_identifier(b),
        a != b,
    ensures
        !in_namespace(b, prefixed(a, key)),
{
    if in_namespace(b, prefixed(a, key)) {
        let suffix = choose|suffix: Seq<u8>| prefixed(a, key) == prefixed(b, suffix);
        lemma_namespaces_disjoint(a, b, key, suffix);
    }
}

/// Whether an identifier may hold the byte.
pub fn is_allowed(b: u8) -> (r: bool)
    ensures
        r == allowed(b),
{
    (48 <= b && b <= 57) || (65 <= b && b <= 90) || (97 <= b && b <= 122) || b == 46 || b == 95
        || b == 43 || b == 45 || b == 35 || b == 91 || b == 93 || b == 60 || b == 62
}

/// Whether the bytes make an identifier.
pub fn check_identifier(s: &[u8]) -> (r: bool)
    ensures
        r == is_identifier(s@),
{
    if s.len() == 0 {
        return false;
    }
    let mut i: usize = 0;
    while i < s.len()
        invariant
            0 <= i <= s.len(),
            forall|j: int| 0 <= j < i ==> allowed(#[trigger] s@[j]),
        decreases s.len() - i,
    {
        if !is_allowed(s[i]) {
            return false;
        }
        i += 1;
    }
    true
}

/// Whether the bytes make a path.
pub fn check_path(s: &[u8]) -> (r: bool)
    ensures
        r == is_path(s@),
{
    let n = s.len();
    if n == 0 || s[0] == SEPARATOR || s[n - 1] == SEPARATOR {
        return false;
    }
    let mut i: usize = 0;
    while i < n
        invariant
            n == s.len(),
            0 <= i <= n,
            forall|j: int| 0 <= j < i ==> allowed(#[trigger] s@[j]) || s@[j] == SEPARATOR,
            forall|j: int|
                0 <= j < i && j < n - 1 ==> !(#[trigger] s@[j] == SEPARATOR && s@[j + 1]
                    == SEPARATOR),
        decreases n - i,
    {
        if s[i] == SEPARATOR {
            if i + 1 < n && s[i + 1] == SEPARATOR {
                return false;
            }
        } else if !is_allowed(s[i]) {
            return false;
        }
        i += 1;
    }
    true
}

/// The name of a module's namespace.
pub struct Identifier {
    name: Vec<u8>,
}

impl View for Identifier {
    type V = Seq<u8>;

    closed spec fn view(&self) -> Seq<u8> {
        self.name@
    }
}

impl Identifier {
    /// The representation invariant: the name is an identifier.
    pub closed spec fn wf(&self) -> bool {
        is_identifier(self.name@)
    }

    /// Every well-formed identifier holds a valid name.
    pub proof fn lemma_valid(&self)
        requires
            self.wf(),
        ensures
            is_identifier(self@),
    {
    }

    /// The identifier with the bytes `name`, where these make one.
    pub fn from_bytes(name: &[u8]) -> (r: Result<Identifier, StoreError>)
        ensures
            match r {
                Ok(id) => is_identifier(name@) && id.wf() && id@ == name@,
                Err(e) => !is_identifier(name@) && e == StoreError::InvalidIdentifier,
            },
    {
        if check_identifier(name) {
            Ok(Identifier { name: copy_bytes(name) })
        } else {
            Err(StoreError::InvalidIdentifier)
        }
    }

    /// The identifier with the bytes `name`, which make one.
    pub(crate) fn from_valid_bytes(name: Vec<u8>) -> (id: Identifier)
        requires
            is_identifier(name@),
        ensures
            id.wf(),
            id@ == name@,
    {
        Identifier { name }
    }

    /// The identifier with the name `name`, where its bytes make one.
    pub fn new(name: &str) -> (r: Result<Identifier, StoreError>)
        ensures
            match r {
                Ok(id) => is_identifier(name.spec_bytes()) && id.wf() && id@ == name.spec_bytes(),
                Err(e) => !is_identifier(name.spec_bytes()) && e == StoreError::InvalidIdentifier,
            },
    {
        Identifier::from_bytes(name.as_bytes())
    }

    /// The bytes of the name.
    pub fn as_bytes(&self) -> (b: &[u8])
        ensures
            b@ == self@,
    {
        self.name.as_slice()
    }

    /// A copy of this identifier.
    pub fn duplicate(&self) -> (id: Identifier)
        ensures
            id@ == self@,
            id.wf() == self.wf(),
    {
        Identifier { name: copy_bytes(self.name.as_slice()) }
    }

    /// Whether two identifiers are the same name.
    pub fn same(&self, other: &Identifier) -> (r: bool)
        ensures
            r == (self@ == other@),
    {
        bytes_eq(self.name.as_slice(), other.name.as_slice())
    }

    /// The key under which this namespace keeps `key`.
    pub fn prefixed_key(&self, key: &[u8]) -> (k: Vec<u8>)
        ensures
            k@ == prefixed(self@, key@),
    {
        let mut k = copy_bytes(self.name.as_slice());
        k.push(SEPARATOR);
        let mut i: usize = 0;
        while i < key.len()
            invariant
                0 <= i <= key.len(),
                k@ == self@.push(SEPARATOR) + key@.subrange(0, i as int),
            decreases key.len() - i,
        {
            k.push(key[i]);
            assert(key@.subrange(0, i as int).push(key@[i as int]) =~= key@.subrange(
                0,
                i as int + 1,
            ));
            i += 1;
        }
        assert(key@.subrange(0, i as int) =~= key@);
        k
    }
}

/// The route of a query: identifiers joined by separators.
pub struct Path {
    text: Vec<u8>,
}

impl View for Path {
    type V = Seq<u8>;

    closed spec fn view(&self) -> Seq<u8> {
        self.text@
    }
}

impl Path {
    /// The representation invariant: the text is a path.
    pub closed spec fn wf(&self) -> bool {
        is_path(self.text@)
    }

    /// Every well-formed path holds a valid text.
    pub proof fn lemma_valid(&self)
        requires
            self.wf(),
        ensures
            is_path(self@),
    {
    }

    /// The path with the bytes `text`, where these make one.
    pub fn from_bytes(text: &[u8]) -> (r: Result<Path, StoreError>)
        ensures
            match r {
                Ok(p) => is_path(text@) && p.wf() && p@ == text@,
                Err(e) => !is_path(text@) && e == StoreError::InvalidPath,
            },
    {
        if check_path(text) {
            Ok(Path { text: copy_bytes(text) })
        } else {
            Err(StoreError::InvalidPath)
        }
    }

    /// The path with the text `text`, where its bytes make one.
    pub fn new(text: &str) -> (r: Result<Path, StoreError>)
        ensures
            match r {
                Ok(p) => is_path(text.spec_bytes()) && p.wf() && p@ == text.spec_bytes(),
                Err(e) => !is_path(text.spec_bytes()) && e == StoreError::InvalidPath,
            },
    {
        Path::from_bytes(text.as_bytes())
    }

    /// The bytes of the path, from which `from_bytes` gives the path back.
    pub fn as_bytes(&self) -> (b: &[u8])
        ensures
            b@ == self@,
    {
        self.text.as_slice()
    }

    /// Whether the first segment of the path is `id`: the path is the
    /// identifier alone or goes on with a separator behind it.
    pub fn starts_with(&self, id: &Identifier) -> (r: bool)
        ensures
            r == (self@ == id@ || in_namespace(id@, self@)),
    {
        let p = self.text.as_slice();
        let n = id.as_bytes();
        if !crate::store::key::starts_with(p, n) {
            proof {
                if in_namespace(id@, self@) {
                    let suffix = choose|suffix: Seq<u8>| self@ == prefixed(id@, suffix);
                    assert(self@.subrange(0, id@.len() as int) =~= id@);
                }
                if self@ == id@ {
                    assert(self@.subrange(0, id@.len() as int) =~= id@);
                }
            }
            return false;
        }
        if p.len() == n.len() {
            assert(self@.subrange(0, id@.len() as int) =~= self@);
            return true;
        }
        if p[n.len()] == SEPARATOR {
            proof {
                let suffix = self@.subrange(id@.len() as int + 1, self@.len() as int);
                assert(self@ =~= prefixed(id@, suffix));
            }
            true
        } else {
            proof {
                if in_namespace(id@, self@) {
                    let suffix = choose|suffix: Seq<u8>| self@ == prefixed(id@, suffix);
                    assert(prefixed(id@, suffix)[id@.len() as int] == SEPARATOR);
                }
            }
            false
        }
    }
}

} // verus!
