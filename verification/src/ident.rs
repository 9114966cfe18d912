//! Module names and module identities. A name is a non-empty ASCII
//! identifier (`[A-Za-z_][A-Za-z0-9_]*`) of at most 127 characters; a module
//! identity pairs the publisher's address with such a name. At most one
//! bytecode blob may ever be published per module identity.

use vstd::prelude::*;
use vstd::string::StrSliceExecFns;
use crate::address::Address;

verus! {

/// Why a name was rejected.
#[derive(PartialEq, Eq, Structural, Clone, Copy, Debug)]
pub enum IdentError {
    /// Empty, too long, or a character outside the identifier alphabet.
    InvalidIdentifier,
}

/// May a character begin an identifier?
pub open spec fn is_ident_start(c: char) -> bool {
    ('a' <= c <= 'z') || ('A' <= c <= 'Z') || c == '_'
}

/// May a character continue an identifier?
pub open spec fn is_ident_char(c: char) -> bool {
    is_ident_start(c) || ('0' <= c <= '9')
}

/// A valid module or function name.
pub open spec fn valid_ident(s: Seq<char>) -> bool {
    &&& 1 <= s.len() <= 127
    &&& is_ident_start(s[0])
    &&& forall|i: int| 0 <= i < s.len() ==> is_ident_char(#[trigger] s[i])
}

/// Identifier characters are ASCII.
pub proof fn lemma_ident_ascii(s: Seq<char>)
    requires
        valid_ident(s),
    ensures
        forall|i: int| 0 <= i < s.len() ==> (#[trigger] s[i]) < 128,
{
    assert forall|i: int| 0 <= i < s.len() implies (#[trigger] s[i]) < 128 by {
        assert(is_ident_char(s[i]));
    }
}

/// Check a name against the identifier grammar.
pub fn is_valid_identifier(s: &str) -> (r: bool)
    ensures
        r == valid_ident(s@),
{
    let n = s.unicode_len();
    if n == 0 || n > 127 {
        return false;
    }
    let c0 = s.get_char(0);
    if !(('a' <= c0 && c0 <= 'z') || ('A' <= c0 && c0 <= 'Z') || c0 == '_') {
        return false;
    }
    let mut i: usize = 1;
    while i < n
        invariant
            1 <= i <= n,
            n == s@.len(),
            is_ident_start(s@[0]),
            forall|j: int| 0 <= j < i ==> is_ident_char(#[trigger] s@[j]),
        decreases n - i,
    {
        let c = s.get_char(i);
        if !(('a' <= c && c <= 'z') || ('A' <= c && c <= 'Z') || c == '_' || ('0' <= c && c <= '9')) {
            return false;
        }
        i = i + 1;
    }
    true
}

/// The identity of a published module: publisher address and name.
pub struct ModuleId {
    pub address: Address,
    pub name: String,
}

impl ModuleId {
    /// Well-formed: a 32-byte address and a valid name.
    pub open spec fn wf(&self) -> bool {
        self.address.wf() && valid_ident(self.name@)
    }

    /// Build a module identity, validating the name.
    pub fn new(address: Address, name: String) -> (r: Result<ModuleId, IdentError>)
        requires
            address.wf(),
        ensures
            r is Ok <==> valid_ident(name@),
            r is Ok ==> r->Ok_0.address@ == address@ && r->Ok_0.name@ == name@ && r->Ok_0.wf(),
    {
        if is_valid_identifier(name.as_str()) {
            Ok(ModuleId { address, name })
        } else {
            Err(IdentError::InvalidIdentifier)
        }
    }

    /// Same address and same name.
    pub fn eq_id(&self, other: &ModuleId) -> (r: bool)
        ensures
            r == (self.address@ == other.address@ && self.name@ == other.name@),
    {
        self.address.eq_addr(&other.address) && string_eq(&self.name, &other.name)
    }

    /// An independent copy.
    pub fn duplicate(&self) -> (r: ModuleId)
        ensures
            r.address@ == self.address@,
            r.name@ == self.name@,
            self.wf() ==> r.wf(),
    {
        ModuleId { address: self.address.duplicate(), name: clone_string(&self.name) }
    }
}

/// Content equality of two strings.
pub fn string_eq(a: &String, b: &String) -> (r: bool)
    ensures
        r == (a@ == b@),
{
    a.eq(b)
}

/// A copy of a string with the same characters.
pub fn clone_string(s: &String) -> (r: String)
    ensures
        r@ == s@,
{
    let r = s.clone();
    r
}

} // verus!
