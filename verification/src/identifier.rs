//! Identifiers name streams, topics, consumer groups and users: either a
//! non-zero 32-bit numeric id or a name of 1 to 255 bytes. On the wire an
//! identifier is a 1-byte kind, a 1-byte length and the value bytes.

use crate::error::IggyError;
use vstd::bytes::*;
use vstd::prelude::*;
use vstd::slice::{slice_subrange, slice_to_vec};
use vstd::string::StringSliceAdditionalSpecFns;

verus! {

pub const ID_KIND_NUMERIC: u8 = 1;

pub const ID_KIND_NAMED: u8 = 2;

#[derive(Clone, Copy, Debug, PartialEq, Eq, Structural)]
pub enum IdKind {
    Numeric,
    Named,
}

/// A numeric or named identifier. Numeric values are kept in little-endian
/// byte form, exactly as they travel on the wire.
#[derive(Debug)]
pub struct Identifier {
    pub kind: IdKind,
    pub value: Vec<u8>,
}

/// The abstract value of an identifier.
pub enum IdView {
    Num(u32),
    Name(Seq<u8>),
}

impl View for Identifier {
    type V = IdView;

    open spec fn view(&self) -> IdView {
        match self.kind {
            IdKind::Numeric => IdView::Num(spec_u32_from_le_bytes(self.value@)),
            IdKind::Named => IdView::Name(self.value@),
        }
    }
}

/// A valid abstract identifier: a non-zero numeric id, or a name of 1 to 255
/// bytes that does not end in NUL.
pub open spec fn wf_id_view(v: IdView) -> bool {
    match v {
        IdView::Num(n) => n != 0,
        IdView::Name(b) => 1 <= b.len() <= 255 && b[b.len() - 1] != 0,
    }
}

/// The wire bytes of an identifier.
pub open spec fn spec_id_bytes(v: IdView) -> Seq<u8> {
    match v {
        IdView::Num(n) => seq![ID_KIND_NUMERIC, 4u8] + spec_u32_to_le_bytes(n),
        IdView::Name(b) => seq![ID_KIND_NAMED, b.len() as u8] + b,
    }
}

/// Parses an identifier from the front of `s`: the identifier and the number
/// of bytes it occupies, or nothing if the front of `s` is not a valid
/// identifier.
pub open spec fn spec_parse_id(s: Seq<u8>) -> Option<(IdView, int)> {
    if s.len() < 2 {
        None
    } else {
        let len = s[1] as int;
        if s.len() < 2 + len {
            None
        } else if s[0] == ID_KIND_NUMERIC {
            if len == 4 {
                let n = spec_u32_from_le_bytes(s.subrange(2, 6));
                if n == 0 {
                    None
                } else {
                    Some((IdView::Num(n), 6))
                }
            } else {
                None
            }
        } else if s[0] == ID_KIND_NAMED {
            if 1 <= len && s[2 + len - 1] != 0 {
                Some((IdView::Name(s.subrange(2, 2 + len)), 2 + len))
            } else {
                None
            }
        } else {
            None
        }
    }
}

/// `name` with every trailing NUL byte removed.
pub open spec fn spec_trim_nul(s: Seq<u8>) -> Seq<u8>
    decreases s.len(),
{
    if s.len() > 0 && s[s.len() - 1] == 0 {
        spec_trim_nul(s.drop_last())
    } else {
        s
    }
}

/// Parsing recovers exactly what was encoded, wherever an encoded identifier
/// stands in front of other bytes.
pub proof fn lemma_id_round_trip(v: IdView, rest: Seq<u8>)
    requires
        wf_id_view(v),
    ensures
        spec_parse_id(spec_id_bytes(v) + rest) == Some((v, spec_id_bytes(v).len() as int)),
{
    let s = spec_id_bytes(v) + rest;
    match v {
        IdView::Num(n) => {
            lemma_auto_spec_u32_to_from_le_bytes();
            assert(s.subrange(2, 6) =~= spec_u32_to_le_bytes(n));
        },
        IdView::Name(b) => {
            assert(s[1] == b.len() as u8);
            assert(s.subrange(2, 2 + b.len() as int) =~= b);
            assert(s[2 + b.len() - 1] == b[b.len() - 1]);
        },
    }
}

impl Identifier {
    /// A structurally valid identifier whose abstract value is well formed.
    pub open spec fn wf(&self) -> bool {
        &&& wf_id_view(self@)
        &&& (self.kind is Numeric ==> self.value@.len() == 4)
    }

    /// A numeric identifier; zero is reserved and rejected.
    pub fn numeric(id: u32) -> (r: Result<Identifier, IggyError>)
        ensures
            id == 0 <==> r is Err,
            r is Err ==> r == Result::<Identifier, IggyError>::Err(IggyError::InvalidIdentifier),
            r is Ok ==> r->Ok_0@ == IdView::Num(id) && r->Ok_0.wf(),
    {
        if id == 0 {
            return Err(IggyError::InvalidIdentifier);
        }
        proof {
            lemma_auto_spec_u32_to_from_le_bytes();
        }
        Ok(Identifier { kind: IdKind::Numeric, value: u32_to_le_bytes(id) })
    }

    /// A named identifier. Trailing NUL padding is trimmed; the rest must be
    /// 1 to 255 bytes long.
    pub fn named(name: &str) -> (r: Result<Identifier, IggyError>)
        ensures
            ({
                let t = spec_trim_nul(name.spec_bytes());
                &&& (r is Ok <==> 1 <= t.len() <= 255)
                &&& (r is Ok ==> r->Ok_0@ == IdView::Name(t) && r->Ok_0.wf())
                &&& (t.len() == 0 ==> r == Result::<Identifier, IggyError>::Err(
                    IggyError::NameTooShort,
                ))
                &&& (t.len() > 255 ==> r == Result::<Identifier, IggyError>::Err(
                    IggyError::NameTooLong,
                ))
            }),
    {
        let bytes = slice_to_vec(name.as_bytes());
        Identifier::named_from_bytes(bytes)
    }

    /// A named identifier built from raw bytes, as [`Identifier::named`].
    pub fn named_from_bytes(name: Vec<u8>) -> (r: Result<Identifier, IggyError>)
        ensures
            ({
                let t = spec_trim_nul(name@);
                &&& (r is Ok <==> 1 <= t.len() <= 255)
                &&& (r is Ok ==> r->Ok_0@ == IdView::Name(t) && r->Ok_0.wf())
                &&& (t.len() == 0 ==> r == Result::<Identifier, IggyError>::Err(
                    IggyError::NameTooShort,
                ))
                &&& (t.len() > 255 ==> r == Result::<Identifier, IggyError>::Err(
                    IggyError::NameTooLong,
                ))
            }),
    {
        let mut value = name;
        while value.len() > 0 && value[value.len() - 1] == 0
            invariant
                spec_trim_nul(value@) == spec_trim_nul(name@),
            decreases value@.len(),
        {
            proof {
                assert(spec_trim_nul(value@) == spec_trim_nul(value@.drop_last()));
            }
            value.pop();
        }
        proof {
            assert(spec_trim_nul(value@) == value@);
        }
        if value.len() == 0 {
            Err(IggyError::NameTooShort)
        } else if value.len() > 255 {
            Err(IggyError::NameTooLong)
        } else {
            Ok(Identifier { kind: IdKind::Named, value })
        }
    }

    /// Checks structural validity at run time, matching [`Identifier::wf`].
    pub fn check_wf(&self) -> (r: bool)
        ensures
            r == self.wf(),
    {
        match self.kind {
            IdKind::Numeric => {
                if self.value.len() != 4 {
                    return false;
                }
                let n = crate::encoding::read_u32_le(self.value.as_slice(), 0);
                proof {
                    assert(self.value@.subrange(0, 4) =~= self.value@);
                }
                n != 0
            },
            IdKind::Named => {
                let n = self.value.len();
                1 <= n && n <= 255 && self.value[n - 1] != 0
            },
        }
    }

    /// The wire bytes of this identifier.
    pub fn as_bytes(&self) -> (r: Vec<u8>)
        requires
            self.wf(),
        ensures
            r@ == spec_id_bytes(self@),
    {
        let mut r: Vec<u8> = Vec::new();
        match self.kind {
            IdKind::Numeric => {
                r.push(ID_KIND_NUMERIC);
                r.push(4);
                r.extend_from_slice(self.value.as_slice());
                proof {
                    lemma_auto_spec_u32_to_from_le_bytes();
                    assert(r@ =~= spec_id_bytes(self@));
                }
            },
            IdKind::Named => {
                r.push(ID_KIND_NAMED);
                r.push(self.value.len() as u8);
                r.extend_from_slice(self.value.as_slice());
                proof {
                    assert(r@ =~= spec_id_bytes(self@));
                }
            },
        }
        r
    }

    /// Parses the identifier standing at `pos` in `buf`, returning it and the
    /// position just past it. Fails exactly where [`spec_parse_id`] does.
    pub fn parse(buf: &[u8], pos: usize) -> (r: Result<(Identifier, usize), IggyError>)
        requires
            pos <= buf@.len(),
        ensures
            r is Ok <==> spec_parse_id(buf@.skip(pos as int)) is Some,
            r is Err ==> r == Result::<(Identifier, usize), IggyError>::Err(
                IggyError::InvalidIdentifier,
            ),
            r is Ok ==> {
                let (v, n) = spec_parse_id(buf@.skip(pos as int))->Some_0;
                &&& r->Ok_0.0@ == v
                &&& r->Ok_0.0.wf()
                &&& r->Ok_0.1 == pos + n
                &&& pos < r->Ok_0.1 <= buf@.len()
            },
    {
        let ghost s = buf@.skip(pos as int);
        if buf.len() - pos < 2 {
            return Err(IggyError::InvalidIdentifier);
        }
        let kind = buf[pos];
        let len = buf[pos + 1] as usize;
        assert(kind == s[0] && len == s[1]);
        if buf.len() - pos - 2 < len {
            return Err(IggyError::InvalidIdentifier);
        }
        if kind == ID_KIND_NUMERIC {
            if len != 4 {
                return Err(IggyError::InvalidIdentifier);
            }
            let value = slice_to_vec(slice_subrange(buf, pos + 2, pos + 6));
            proof {
                assert(value@ =~= s.subrange(2, 6));
            }
            let n = crate::encoding::read_u32_le(buf, pos + 2);
            proof {
                assert(buf@.subrange(pos + 2, pos + 6) =~= s.subrange(2, 6));
            }
            if n == 0 {
                return Err(IggyError::InvalidIdentifier);
            }
            Ok((Identifier { kind: IdKind::Numeric, value }, pos + 6))
        } else if kind == ID_KIND_NAMED {
            if len == 0 || buf[pos + 2 + len - 1] == 0 {
                return Err(IggyError::InvalidIdentifier);
            }
            let value = slice_to_vec(slice_subrange(buf, pos + 2, pos + 2 + len));
            proof {
                assert(value@ =~= s.subrange(2, 2 + len as int));
                assert(buf@[pos + 2 + len - 1] == s[2 + len - 1]);
            }
            Ok((Identifier { kind: IdKind::Named, value }, pos + 2 + len))
        } else {
            Err(IggyError::InvalidIdentifier)
        }
    }

    /// Parses the identifier standing at the front of `bytes`; bytes past it
    /// are ignored.
    pub fn from_bytes(bytes: &[u8]) -> (r: Result<Identifier, IggyError>)
        ensures
            r is Ok <==> spec_parse_id(bytes@) is Some,
            r is Ok ==> r->Ok_0@ == spec_parse_id(bytes@)->Some_0.0 && r->Ok_0.wf(),
            r is Err ==> r == Result::<Identifier, IggyError>::Err(IggyError::InvalidIdentifier),
    {
        proof {
            assert(bytes@.skip(0) =~= bytes@);
        }
        match Identifier::parse(bytes, 0) {
            Ok((id, _)) => Ok(id),
            Err(e) => Err(e),
        }
    }
}

impl Clone for Identifier {
    /// A clone has the same abstract value.
    fn clone(&self) -> (r: Self)
        ensures
            r@ == self@,
            r.kind == self.kind,
            r.value@ == self.value@,
    {
        Identifier { kind: self.kind, value: self.value.clone() }
    }
}

impl vstd::std_specs::cmp::PartialEqSpecImpl for Identifier {
    open spec fn obeys_eq_spec() -> bool {
        true
    }

    open spec fn eq_spec(&self, other: &Identifier) -> bool {
        self.kind == other.kind && self.value@ == other.value@
    }
}

impl PartialEq for Identifier {
    fn eq(&self, other: &Identifier) -> (r: bool) {
        let kinds_match = match (self.kind, other.kind) {
            (IdKind::Numeric, IdKind::Numeric) => true,
            (IdKind::Named, IdKind::Named) => true,
            _ => false,
        };
        if !kinds_match {
            return false;
        }
        let r = self.value == other.value;
        proof {
            if r {
                assert(self.value@ =~= other.value@);
            }
        }
        r
    }
}

} // verus!
