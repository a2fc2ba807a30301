//! Strongly-typed identifier variants: one newtype per domain concept, each
//! carrying its domain's fixed prefix.
//!
//! A domain is named by a marker type implementing [`DomainPrefix`]. The
//! generic [`TypedPillid`] wraps the untyped [`Pillid`] together with that
//! marker, so identifiers of different domains are distinct types and never
//! interchangeable, even though their representation is shared. Two domains
//! may legally share a prefix: their identifiers are then textually
//! indistinguishable but still type-distinct.

use vstd::prelude::*;

verus! {

use vstd::string::StringSliceAdditionalSpecFns;
use vstd::utf8::is_ascii_chars;
use crate::{
    Pillid,
    PillidBuilder,
    Error,
    spec_parse,
    TIMESTAMP_LENGTH,
    RANDOM_LENGTH,
    MAX_LENGTH_PILLID,
};
use crate::codec::{spec_encode, be_val, lemma_spec_encode_len};

/// A domain tag: a marker type naming the fixed prefix its identifiers
/// carry. Implementations belong to the library's callers, so nothing is
/// assumed of what `prefix` returns; [`TypedPillid::new`] validates it.
pub trait DomainPrefix {
    /// The prefix baked into this domain's identifiers.
    fn prefix() -> String;
}

/// Whether a candidate prefix can stand in a built identifier: it must be
/// printable ASCII and leave the text room for the separator and the digits.
pub open spec fn spec_prefix_usable(pb: Seq<u8>) -> bool {
    &&& pb.len() + 1 + TIMESTAMP_LENGTH + RANDOM_LENGTH <= MAX_LENGTH_PILLID
    &&& forall|i: int| 0 <= i < pb.len() ==> 0 < #[trigger] pb[i] < 128
}

/// Builds a fresh identifier from a staged builder and a candidate prefix.
/// A usable prefix is staged before building; an unusable one (too long for
/// the buffer, or not printable ASCII) is dropped and the identifier is
/// built bare, so that the result is well-formed whatever text the domain
/// handed over.
pub fn build_prefixed(b: PillidBuilder, prefix: &str) -> (r: Pillid)
    requires
        b.wf(),
        b.spec_prefix() is None,
    ensures
        r.wf(),
        spec_prefix_usable(prefix.spec_bytes()) ==> {
            &&& r.spec_text().len() == prefix.spec_bytes().len() + 1 + TIMESTAMP_LENGTH
                + RANDOM_LENGTH
            &&& r.spec_text().take(prefix.spec_bytes().len() as int + 1) == prefix.spec_bytes().push(
                95u8,
            )
        },
        !spec_prefix_usable(prefix.spec_bytes()) ==> r.spec_text().len() == TIMESTAMP_LENGTH
            + RANDOM_LENGTH,
{
    let pb = prefix.as_bytes();
    let fits: bool = pb.len() <= MAX_LENGTH_PILLID - TIMESTAMP_LENGTH - RANDOM_LENGTH - 1;
    let mut clean: bool = true;
    let mut i: usize = 0;
    while i < pb.len()
        invariant
            i <= pb@.len(),
            pb@ == prefix.spec_bytes(),
            clean == (forall|k: int| 0 <= k < i ==> 0 < #[trigger] pb@[k] < 128),
        decreases pb@.len() - i,
    {
        let ghost clean0 = clean;
        let byte = pb[i];
        if byte == 0 || byte >= 128 {
            clean = false;
        }
        proof {
            if clean0 && 0 < pb@[i as int] < 128 {
                assert forall|k: int| 0 <= k < i + 1 implies 0 < #[trigger] pb@[k] < 128 by {}
            }
        }
        i += 1;
    }
    proof {
        lemma_spec_encode_len(be_val(b.spec_timestamp()), TIMESTAMP_LENGTH as nat);
        lemma_spec_encode_len(be_val(b.spec_random()), RANDOM_LENGTH as nat);
    }
    if fits && clean {
        let b2 = match b.with_prefix(prefix) {
            Ok(x) => x,
            Err(_) => {
                proof {
                    assert(false);
                }
                b
            },
        };
        proof {
            lemma_spec_encode_len(be_val(b2.spec_timestamp()), TIMESTAMP_LENGTH as nat);
            lemma_spec_encode_len(be_val(b2.spec_random()), RANDOM_LENGTH as nat);
            assert(b2.spec_render().take(prefix.spec_bytes().len() as int + 1) =~= prefix.spec_bytes()
                .push(95u8));
        }
        b2.build()
    } else {
        let r = b.build();
        proof {
            assert(r.spec_text().len() == TIMESTAMP_LENGTH + RANDOM_LENGTH);
        }
        r
    }
}

/// An identifier bound at the type level to the domain `M`. Structurally it
/// is the untyped [`Pillid`]; the marker keeps domains apart at compile
/// time, and conversion to or from the untyped value is always explicit.
#[derive(PartialEq, Eq, Hash, PartialOrd, Ord)]
pub struct TypedPillid<M: DomainPrefix> {
    id: Pillid,
    marker: core::marker::PhantomData<M>,
}

impl<M: DomainPrefix> Clone for TypedPillid<M> {
    /// A field-wise copy; typed identifiers are plain stack values.
    fn clone(&self) -> (r: TypedPillid<M>)
        ensures
            r.spec_id() == self.spec_id(),
    {
        TypedPillid { id: self.id, marker: core::marker::PhantomData }
    }
}

impl<M: DomainPrefix> Copy for TypedPillid<M> {

}

impl<M: DomainPrefix> TypedPillid<M> {
    /// The untyped identifier inside.
    pub closed spec fn spec_id(self) -> Pillid {
        self.id
    }

    /// Well-formedness of the wrapped identifier.
    pub open spec fn wf(self) -> bool {
        self.spec_id().wf()
    }

    /// A fresh identifier for this domain: current time, fresh entropy, the
    /// domain's prefix. The prefix comes from outside code, so it is
    /// validated as [`build_prefixed`] describes; the result is well-formed
    /// whatever `M::prefix` returned.
    pub fn new() -> (r: TypedPillid<M>)
        ensures
            r.wf(),
            r.spec_id().spec_text().len() >= TIMESTAMP_LENGTH + RANDOM_LENGTH,
    {
        let p = M::prefix();
        let b = PillidBuilder::new();
        let id = build_prefixed(b, p.as_str());
        TypedPillid { id, marker: core::marker::PhantomData }
    }

    /// Wraps an untyped identifier into this domain, explicitly.
    pub fn from_pillid(id: Pillid) -> (r: TypedPillid<M>)
        ensures
            r.spec_id() == id,
    {
        TypedPillid { id, marker: core::marker::PhantomData }
    }

    /// Gives the untyped identifier back, explicitly.
    pub fn into_pillid(self) -> (r: Pillid)
        ensures
            r == self.spec_id(),
    {
        self.id
    }

    /// Parses this domain's identifier from text, as [`Pillid::parse`] does.
    pub fn parse(s: &str) -> (r: Result<TypedPillid<M>, Error>)
        ensures
            match r {
                Ok(t) => spec_parse(s.spec_bytes()) == Ok::<Seq<u8>, Error>(t.spec_id()@),
                Err(e) => spec_parse(s.spec_bytes()) == Err::<Seq<u8>, Error>(e),
            },
    {
        match Pillid::parse(s) {
            Ok(p) => Ok(TypedPillid::from_pillid(p)),
            Err(e) => Err(e),
        }
    }

    /// The identifier's text, as [`Pillid::to_text`] renders it.
    pub fn to_text(&self) -> (r: String)
        ensures
            self.wf() ==> {
                &&& r@.len() == self.spec_id().spec_text().len()
                &&& is_ascii_chars(r@)
                &&& forall|i: int|
                    0 <= i < r@.len() ==> #[trigger] r@[i] as u8 == self.spec_id().spec_text()[i]
            },
    {
        self.id.to_text()
    }
}

impl<M: DomainPrefix> From<Pillid> for TypedPillid<M> {
    /// The explicit wrap, through the standard conversion trait.
    fn from(id: Pillid) -> (r: TypedPillid<M>) {
        TypedPillid { id, marker: core::marker::PhantomData }
    }
}

impl<M: DomainPrefix> vstd::std_specs::convert::FromSpecImpl<Pillid> for TypedPillid<M> {
    open spec fn obeys_from_spec() -> bool {
        true
    }

    closed spec fn from_spec(id: Pillid) -> TypedPillid<M> {
        TypedPillid { id, marker: core::marker::PhantomData }
    }
}

impl<M: DomainPrefix> From<TypedPillid<M>> for Pillid {
    /// The explicit unwrap, through the standard conversion trait.
    fn from(t: TypedPillid<M>) -> (r: Pillid) {
        t.into_pillid()
    }
}

impl<M: DomainPrefix> vstd::std_specs::convert::FromSpecImpl<TypedPillid<M>> for Pillid {
    open spec fn obeys_from_spec() -> bool {
        true
    }

    closed spec fn from_spec(t: TypedPillid<M>) -> Pillid {
        t.spec_id()
    }
}

} // verus!
