//! Update: withdrawn routes, path attributes, and newly advertised routes.
use vstd::prelude::*;
use crate::errors::BgpError;
use crate::header::{header_bytes, make_bgp_header, BGP_TYPE_UPDATE};
use crate::path_attribute::{
    attribute_views, attribute_wf, attributes_bytes, compile_path_attributes, extract_path_attributes,
    fits_length, lemma_attributes_round_trip, parse_attributes, AttributeFlag, AttributeType,
    PathAttribute,
};
use crate::prefix::{
    compile_prefixes, extract_prefixes, lemma_prefixes_round_trip, parse_prefixes, prefix_wf,
    prefixes_bytes, views, Prefix,
};
use crate::wire::{be16, be16_bytes, lemma_be16_bytes, push_all, push_u16, read_u16};

verus! {

#[derive(Debug, Clone, PartialEq, Eq)]
pub struct BGPUpdate {
    pub withdrawn_routes: Vec<Prefix>,
    pub path_attributes: Vec<PathAttribute>,
    pub network_layer_reachability_information: Vec<Prefix>,
}

/// Withdrawn routes, path attributes, advertised routes.
pub type UpdateView = (
    Seq<(u8, Seq<u8>)>,
    Seq<(Seq<AttributeFlag>, AttributeType, Seq<u8>)>,
    Seq<(u8, Seq<u8>)>,
);

impl View for BGPUpdate {
    type V = UpdateView;

    open spec fn view(&self) -> UpdateView {
        (
            views(self.withdrawn_routes@),
            attribute_views(self.path_attributes@),
            views(self.network_layer_reachability_information@),
        )
    }
}

/// Decodes an Update body: a two-byte length and that many bytes of withdrawn
/// routes, a two-byte length and that many bytes of attributes, then advertised
/// routes to the end.
pub open spec fn parse_update(b: Seq<u8>) -> Result<UpdateView, BgpError> {
    if b.len() < 2 {
        Err(BgpError::Truncated)
    } else {
        let w = be16(b[0], b[1]) as int;
        if b.len() < 2 + w + 2 {
            Err(BgpError::Truncated)
        } else {
            let a = be16(b[2 + w], b[3 + w]) as int;
            let nlri_at = 2 + w + 2 + a;
            if b.len() < nlri_at {
                Err(BgpError::Truncated)
            } else {
                match parse_prefixes(b.subrange(2, 2 + w)) {
                    Err(e) => Err(e),
                    Ok(withdrawn) => match parse_attributes(b.subrange(4 + w, nlri_at as int)) {
                        Err(e) => Err(e),
                        Ok(attrs) => match parse_prefixes(b.skip(nlri_at as int)) {
                            Err(e) => Err(e),
                            Ok(nlri) => Ok((withdrawn, attrs, nlri)),
                        },
                    },
                }
            }
        }
    }
}

/// The wire form of an Update body.
pub open spec fn update_body_bytes(u: UpdateView) -> Seq<u8> {
    let w = prefixes_bytes(u.0);
    let a = attributes_bytes(u.1);
    be16_bytes(w.len() as u16) + w + be16_bytes(a.len() as u16) + a + prefixes_bytes(u.2)
}

pub open spec fn prefixes_valid(ps: Seq<(u8, Seq<u8>)>) -> bool {
    forall|k: int| 0 <= k < ps.len() ==> (#[trigger] ps[k]).0 <= 32
}

pub open spec fn attributes_fit(attrs: Seq<(Seq<AttributeFlag>, AttributeType, Seq<u8>)>) -> bool {
    forall|k: int| 0 <= k < attrs.len() ==> fits_length(#[trigger] attrs[k])
}

/// Why an Update cannot be encoded, checked in this order, or `None`.
pub open spec fn update_encode_error(u: UpdateView) -> Option<BgpError> {
    if !prefixes_valid(u.0) {
        Some(BgpError::InvalidPrefixLength)
    } else if !attributes_fit(u.1) {
        Some(BgpError::LengthFlagMismatch)
    } else if !prefixes_valid(u.2) {
        Some(BgpError::InvalidPrefixLength)
    } else if 19 + update_body_bytes(u).len() > 4096 {
        Some(BgpError::BadMessageLength)
    } else {
        None
    }
}

/// An Update that decoding its own encoding gives back.
pub open spec fn update_wf(u: UpdateView) -> bool {
    &&& forall|k: int| 0 <= k < u.0.len() ==> prefix_wf(#[trigger] u.0[k])
    &&& forall|k: int| 0 <= k < u.1.len() ==> attribute_wf(#[trigger] u.1[k])
    &&& forall|k: int| 0 <= k < u.2.len() ==> prefix_wf(#[trigger] u.2[k])
    &&& 19 + update_body_bytes(u).len() <= 4096
}

proof fn lemma_views_valid(ps: Seq<Prefix>)
    ensures
        prefixes_valid(views(ps)) <==> forall|k: int| 0 <= k < ps.len() ==> ps[k].length <= 32,
{
    if prefixes_valid(views(ps)) {
        assert forall|k: int| 0 <= k < ps.len() implies ps[k].length <= 32 by {
            assert(views(ps)[k].0 == ps[k].length);
        }
    }
    if forall|k: int| 0 <= k < ps.len() ==> ps[k].length <= 32 {
        assert forall|k: int| 0 <= k < views(ps).len() implies (#[trigger] views(ps)[k]).0 <= 32 by {
            assert(views(ps)[k].0 == ps[k].length);
        }
    }
}

proof fn lemma_views_fit(attrs: Seq<PathAttribute>)
    ensures
        attributes_fit(attribute_views(attrs)) <==> forall|k: int|
            0 <= k < attrs.len() ==> fits_length(#[trigger] attrs[k]@),
{
    if attributes_fit(attribute_views(attrs)) {
        assert forall|k: int| 0 <= k < attrs.len() implies fits_length(#[trigger] attrs[k]@) by {
            assert(attribute_views(attrs)[k] == attrs[k]@);
        }
    }
    if forall|k: int| 0 <= k < attrs.len() ==> fits_length(#[trigger] attrs[k]@) {
        assert forall|k: int| 0 <= k < attribute_views(attrs).len() implies fits_length(
            #[trigger] attribute_views(attrs)[k],
        ) by {
            assert(attribute_views(attrs)[k] == attrs[k]@);
        }
    }
}

impl BGPUpdate {
    /// Decodes an Update body.
    pub fn decode(buf: &[u8]) -> (r: Result<BGPUpdate, BgpError>)
        ensures
            r matches Ok(u) ==> parse_update(buf@) == Ok::<_, BgpError>(u@),
            r matches Err(e) ==> parse_update(buf@) == Err::<UpdateView, _>(e),
    {
        if buf.len() < 2 {
            return Err(BgpError::Truncated);
        }
        let w = read_u16(buf, 0) as usize;
        if buf.len() - 2 < w || buf.len() - 2 - w < 2 {
            return Err(BgpError::Truncated);
        }
        let a = read_u16(buf, 2 + w) as usize;
        if buf.len() - 4 - w < a {
            return Err(BgpError::Truncated);
        }
        let nlri_at = 4 + w + a;
        let withdrawn_routes = match extract_prefixes(&buf[2..2 + w]) {
            Ok(v) => v,
            Err(e) => {
                return Err(e);
            },
        };
        let path_attributes = match extract_path_attributes(&buf[4 + w..nlri_at]) {
            Ok(v) => v,
            Err(e) => {
                return Err(e);
            },
        };
        let network_layer_reachability_information = match extract_prefixes(&buf[nlri_at..buf.len()]) {
            Ok(v) => v,
            Err(e) => {
                return Err(e);
            },
        };
        Ok(BGPUpdate { withdrawn_routes, path_attributes, network_layer_reachability_information })
    }

    /// The whole message, header included.
    pub fn encode(self) -> (r: Result<Vec<u8>, BgpError>)
        ensures
            update_encode_error(self@) == None::<BgpError> <==> r is Ok,
            r matches Ok(b) ==> b@ == header_bytes(
                (19 + update_body_bytes(self@).len()) as u16,
                2,
            ) + update_body_bytes(self@),
            r matches Err(e) ==> update_encode_error(self@) == Some(e),
    {
        let ghost u = self@;
        proof {
            lemma_views_valid(self.withdrawn_routes@);
            lemma_views_fit(self.path_attributes@);
            lemma_views_valid(self.network_layer_reachability_information@);
        }
        let withdrawn = match compile_prefixes(self.withdrawn_routes) {
            Ok(b) => b,
            Err(e) => {
                return Err(e);
            },
        };
        let attributes = match compile_path_attributes(self.path_attributes) {
            Ok(b) => b,
            Err(e) => {
                return Err(e);
            },
        };
        let nlri = match compile_prefixes(self.network_layer_reachability_information) {
            Ok(b) => b,
            Err(e) => {
                return Err(e);
            },
        };
        let w = withdrawn.len();
        let a = attributes.len();
        let n = nlri.len();
        if w > 4096 || a > 4096 || n > 4096 || 19 + 2 + w + 2 + a + n > 4096 {
            return Err(BgpError::BadMessageLength);
        }
        let body_len = (2 + w + 2 + a + n) as u16;
        let mut buf = make_bgp_header(body_len, BGP_TYPE_UPDATE);
        push_u16(&mut buf, w as u16);
        push_all(&mut buf, withdrawn.as_slice());
        push_u16(&mut buf, a as u16);
        push_all(&mut buf, attributes.as_slice());
        push_all(&mut buf, nlri.as_slice());
        assert(buf@ =~= header_bytes((19 + update_body_bytes(u).len()) as u16, 2) + update_body_bytes(u));
        Ok(buf)
    }
}

/// A well-formed Update encodes.
pub proof fn lemma_wf_encodes(u: UpdateView)
    requires
        update_wf(u),
    ensures
        update_encode_error(u) == None::<BgpError>,
{
    assert forall|k: int| 0 <= k < u.0.len() implies (#[trigger] u.0[k]).0 <= 32 by {
        assert(prefix_wf(u.0[k]));
    }
    assert forall|k: int| 0 <= k < u.1.len() implies fits_length(#[trigger] u.1[k]) by {
        assert(attribute_wf(u.1[k]));
    }
    assert forall|k: int| 0 <= k < u.2.len() implies (#[trigger] u.2[k]).0 <= 32 by {
        assert(prefix_wf(u.2[k]));
    }
}

/// Decoding the encoded body of a well-formed Update gives back the Update.
pub proof fn lemma_update_round_trip(u: UpdateView)
    requires
        update_wf(u),
    ensures
        parse_update(update_body_bytes(u)) == Ok::<_, BgpError>(u),
{
    let w = prefixes_bytes(u.0);
    let a = attributes_bytes(u.1);
    let n = prefixes_bytes(u.2);
    let b = update_body_bytes(u);
    lemma_be16_bytes(w.len() as u16);
    lemma_be16_bytes(a.len() as u16);
    lemma_prefixes_round_trip(u.0);
    lemma_attributes_round_trip(u.1);
    lemma_prefixes_round_trip(u.2);
    let wl = w.len() as int;
    let al = a.len() as int;
    assert(b.subrange(2, 2 + wl) =~= w);
    assert(b[2 + wl] == be16_bytes(a.len() as u16)[0]);
    assert(b[3 + wl] == be16_bytes(a.len() as u16)[1]);
    assert(b.subrange(4 + wl, 4 + wl + al) =~= a);
    assert(b.skip(4 + wl + al) =~= n);
}

} // verus!
