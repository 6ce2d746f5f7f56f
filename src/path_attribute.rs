//! Path attributes: a flag byte, a type code, a one- or two-byte length, and a value.
use vstd::prelude::*;
use crate::errors::BgpError;
use crate::wire::{
    after, be16, be16_bytes, copy_range, lemma_after_after, lemma_after_empty, lemma_be16_bytes,
    push_all, push_u16, read_u16,
};

verus! {

/// One bit of the attribute flag byte.
#[derive(Debug, Clone, Copy, PartialEq, Eq, Structural)]
pub enum AttributeFlag {
    Optional,
    Transitive,
    Partial,
    ExtendedLength,
}

/// The attribute type code; codes outside the known set are kept as they are.
#[derive(Debug, Clone, Copy, PartialEq, Eq, Structural)]
pub enum AttributeType {
    Origin,
    ASPath,
    NextHop,
    MultiExitDisc,
    LocalPref,
    AtomicAggregate,
    Aggregator,
    Unknown(u8),
}

/// A path attribute as it is carried in an Update message.
#[derive(Debug, Clone, PartialEq, Eq)]
pub struct PathAttribute {
    pub flags: Vec<AttributeFlag>,
    pub type_code: AttributeType,
    pub value: Vec<u8>,
}

impl View for PathAttribute {
    type V = (Seq<AttributeFlag>, AttributeType, Seq<u8>);

    open spec fn view(&self) -> (Seq<AttributeFlag>, AttributeType, Seq<u8>) {
        (self.flags@, self.type_code, self.value@)
    }
}

/// The bit of a flag in the flag byte.
pub open spec fn flag_bit(f: AttributeFlag) -> u8 {
    match f {
        AttributeFlag::Optional => 0x80,
        AttributeFlag::Transitive => 0x40,
        AttributeFlag::Partial => 0x20,
        AttributeFlag::ExtendedLength => 0x10,
    }
}

/// The flag byte of a list of flags: the OR of their bits.
pub open spec fn bits_of(flags: Seq<AttributeFlag>) -> u8
    decreases flags.len(),
{
    if flags.len() == 0 {
        0
    } else {
        bits_of(flags.drop_last()) | flag_bit(flags.last())
    }
}

/// The flags set in the high nibble of `b`, lowest bit first; the low nibble is ignored.
pub open spec fn flags_of(b: u8) -> Seq<AttributeFlag> {
    (if b & 0x10 != 0 { seq![AttributeFlag::ExtendedLength] } else { seq![] })
        + (if b & 0x20 != 0 { seq![AttributeFlag::Partial] } else { seq![] })
        + (if b & 0x40 != 0 { seq![AttributeFlag::Transitive] } else { seq![] })
        + (if b & 0x80 != 0 { seq![AttributeFlag::Optional] } else { seq![] })
}

/// The type named by a wire code.
pub open spec fn type_from(c: u8) -> AttributeType {
    if c == 1 {
        AttributeType::Origin
    } else if c == 2 {
        AttributeType::ASPath
    } else if c == 3 {
        AttributeType::NextHop
    } else if c == 4 {
        AttributeType::MultiExitDisc
    } else if c == 5 {
        AttributeType::LocalPref
    } else if c == 6 {
        AttributeType::AtomicAggregate
    } else if c == 7 {
        AttributeType::Aggregator
    } else {
        AttributeType::Unknown(c)
    }
}

/// The wire code of a type.
pub open spec fn type_code(t: AttributeType) -> u8 {
    match t {
        AttributeType::Origin => 1,
        AttributeType::ASPath => 2,
        AttributeType::NextHop => 3,
        AttributeType::MultiExitDisc => 4,
        AttributeType::LocalPref => 5,
        AttributeType::AtomicAggregate => 6,
        AttributeType::Aggregator => 7,
        AttributeType::Unknown(n) => n,
    }
}

/// `Unknown` holds only codes outside the known set.
pub open spec fn type_wf(t: AttributeType) -> bool {
    t matches AttributeType::Unknown(n) ==> !(1 <= n <= 7)
}

pub open spec fn is_extended(flags: Seq<AttributeFlag>) -> bool {
    flags.contains(AttributeFlag::ExtendedLength)
}

/// The value fits the length field that the flags select.
pub open spec fn fits_length(a: (Seq<AttributeFlag>, AttributeType, Seq<u8>)) -> bool {
    if is_extended(a.0) {
        a.2.len() <= 0xffff
    } else {
        a.2.len() <= 0xff
    }
}

/// An attribute that decoding its wire form gives back: flags in the order the
/// flag byte lists them, a type in its canonical variant, a value that fits.
pub open spec fn attribute_wf(a: (Seq<AttributeFlag>, AttributeType, Seq<u8>)) -> bool {
    &&& flags_of(bits_of(a.0)) == a.0
    &&& type_wf(a.1)
    &&& fits_length(a)
}

/// The wire form of one attribute whose value fits its length field.
pub open spec fn attribute_bytes(a: (Seq<AttributeFlag>, AttributeType, Seq<u8>)) -> Seq<u8> {
    seq![bits_of(a.0), type_code(a.1)]
        + (if is_extended(a.0) { be16_bytes(a.2.len() as u16) } else { seq![a.2.len() as u8] })
        + a.2
}

/// The wire form of a list of attributes, back to back.
pub open spec fn attributes_bytes(attrs: Seq<(Seq<AttributeFlag>, AttributeType, Seq<u8>)>) -> Seq<u8>
    decreases attrs.len(),
{
    if attrs.len() == 0 {
        seq![]
    } else {
        attribute_bytes(attrs[0]) + attributes_bytes(attrs.skip(1))
    }
}

/// Decodes the attribute at the start of `b`: the attribute and the bytes it took.
pub open spec fn parse_attribute(b: Seq<u8>) -> Result<
    ((Seq<AttributeFlag>, AttributeType, Seq<u8>), nat),
    BgpError,
> {
    if b.len() < 3 {
        Err(BgpError::Truncated)
    } else {
        let head: nat = if b[0] & 0x10 != 0 { 4 } else { 3 };
        if b.len() < head {
            Err(BgpError::Truncated)
        } else {
            let len: nat = if b[0] & 0x10 != 0 { be16(b[2], b[3]) } else { b[2] as nat };
            if b.len() < head + len {
                Err(BgpError::Truncated)
            } else {
                Ok(((flags_of(b[0]), type_from(b[1]), b.subrange(head as int, (head + len) as int)), head + len))
            }
        }
    }
}

/// Decodes attributes until `b` is used up exactly.
pub open spec fn parse_attributes(b: Seq<u8>) -> Result<
    Seq<(Seq<AttributeFlag>, AttributeType, Seq<u8>)>,
    BgpError,
>
    decreases b.len(),
{
    if b.len() == 0 {
        Ok(seq![])
    } else {
        match parse_attribute(b) {
            Err(e) => Err(e),
            Ok((a, n)) => if 0 < n <= b.len() {
                match parse_attributes(b.skip(n as int)) {
                    Err(e) => Err(e),
                    Ok(rest) => Ok(seq![a] + rest),
                }
            } else {
                Err(BgpError::Truncated)
            },
        }
    }
}

/// The views of a list of attributes.
pub open spec fn attribute_views(attrs: Seq<PathAttribute>) -> Seq<(Seq<AttributeFlag>, AttributeType, Seq<u8>)> {
    attrs.map_values(|a: PathAttribute| a@)
}

impl AttributeFlag {
    /// The bit of this flag in the flag byte.
    pub fn bit(&self) -> (r: u8)
        ensures
            r == flag_bit(*self),
    {
        match self {
            AttributeFlag::Optional => 0x80,
            AttributeFlag::Transitive => 0x40,
            AttributeFlag::Partial => 0x20,
            AttributeFlag::ExtendedLength => 0x10,
        }
    }
}

impl AttributeType {
    /// The type named by a wire code; unknown codes become `Unknown`.
    pub fn from_code(c: u8) -> (r: AttributeType)
        ensures
            r == type_from(c),
            type_wf(r),
    {
        match c {
            1 => AttributeType::Origin,
            2 => AttributeType::ASPath,
            3 => AttributeType::NextHop,
            4 => AttributeType::MultiExitDisc,
            5 => AttributeType::LocalPref,
            6 => AttributeType::AtomicAggregate,
            7 => AttributeType::Aggregator,
            n => AttributeType::Unknown(n),
        }
    }

    /// The wire code of this type.
    pub fn code(&self) -> (r: u8)
        ensures
            r == type_code(*self),
    {
        match self {
            AttributeType::Origin => 1,
            AttributeType::ASPath => 2,
            AttributeType::NextHop => 3,
            AttributeType::MultiExitDisc => 4,
            AttributeType::LocalPref => 5,
            AttributeType::AtomicAggregate => 6,
            AttributeType::Aggregator => 7,
            AttributeType::Unknown(n) => *n,
        }
    }
}

/// A well-formed type survives the trip through its wire code.
pub proof fn lemma_type_round_trip(t: AttributeType)
    requires
        type_wf(t),
    ensures
        type_from(type_code(t)) == t,
{
}

/// Whether the extended-length flag is set in a flag byte.
pub proof fn lemma_flags_of_extended(b: u8)
    ensures
        is_extended(flags_of(b)) <==> b & 0x10 != 0,
{
    let s = flags_of(b);
    if b & 0x10 != 0 {
        assert(s[0] == AttributeFlag::ExtendedLength);
    } else {
        assert forall|i: int| 0 <= i < s.len() implies s[i] != AttributeFlag::ExtendedLength by {
            let p = if b & 0x20 != 0 { seq![AttributeFlag::Partial] } else { Seq::<AttributeFlag>::empty() };
            let t = if b & 0x40 != 0 { seq![AttributeFlag::Transitive] } else { Seq::<AttributeFlag>::empty() };
            let o = if b & 0x80 != 0 { seq![AttributeFlag::Optional] } else { Seq::<AttributeFlag>::empty() };
            assert(s =~= p + t + o);
        }
    }
}

/// Decoding the wire form of a well-formed attribute, whatever follows it, gives
/// back the attribute and consumes exactly its wire form.
pub proof fn lemma_attribute_round_trip(a: (Seq<AttributeFlag>, AttributeType, Seq<u8>), rest: Seq<u8>)
    requires
        attribute_wf(a),
    ensures
        parse_attribute(attribute_bytes(a) + rest) == Ok::<_, BgpError>((a, attribute_bytes(a).len())),
{
    let b = attribute_bytes(a) + rest;
    lemma_flags_of_extended(bits_of(a.0));
    lemma_type_round_trip(a.1);
    let len = a.2.len() as int;
    if is_extended(a.0) {
        lemma_be16_bytes(a.2.len() as u16);
        assert(b.subrange(4, 4 + len) =~= a.2);
    } else {
        assert(b.subrange(3, 3 + len) =~= a.2);
    }
}

/// Decoding the wire form of a list of well-formed attributes gives back the list.
pub proof fn lemma_attributes_round_trip(attrs: Seq<(Seq<AttributeFlag>, AttributeType, Seq<u8>)>)
    requires
        forall|k: int| 0 <= k < attrs.len() ==> attribute_wf(#[trigger] attrs[k]),
    ensures
        parse_attributes(attributes_bytes(attrs)) == Ok::<_, BgpError>(attrs),
    decreases attrs.len(),
{
    if attrs.len() == 0 {
        assert(attributes_bytes(attrs) =~= Seq::<u8>::empty());
        assert(attrs =~= Seq::<(Seq<AttributeFlag>, AttributeType, Seq<u8>)>::empty());
    } else {
        let b = attributes_bytes(attrs);
        let head = attribute_bytes(attrs[0]);
        let tail = attributes_bytes(attrs.skip(1));
        assert forall|k: int| 0 <= k < attrs.skip(1).len() implies attribute_wf(#[trigger] attrs.skip(1)[k]) by {
            assert(attrs.skip(1)[k] == attrs[k + 1]);
        }
        lemma_attributes_round_trip(attrs.skip(1));
        assert(attribute_wf(attrs[0]));
        lemma_attribute_round_trip(attrs[0], tail);
        assert(b == head + tail);
        assert(b.len() > 0);
        assert(b.skip(head.len() as int) =~= tail);
        assert(seq![attrs[0]] + attrs.skip(1) =~= attrs);
        assert(0 < head.len() <= b.len());
    }
}

/// The flags whose bits are set in the high nibble of the flag byte, lowest bit
/// first. The low nibble is reserved and ignored.
pub fn extract_attribute_flags(flags_bitfield: u8) -> (r: Vec<AttributeFlag>)
    ensures
        r@ == flags_of(flags_bitfield),
{
    let mut flags: Vec<AttributeFlag> = Vec::new();
    if flags_bitfield & 0x10 != 0 {
        flags.push(AttributeFlag::ExtendedLength);
    }
    if flags_bitfield & 0x20 != 0 {
        flags.push(AttributeFlag::Partial);
    }
    if flags_bitfield & 0x40 != 0 {
        flags.push(AttributeFlag::Transitive);
    }
    if flags_bitfield & 0x80 != 0 {
        flags.push(AttributeFlag::Optional);
    }
    assert(flags@ =~= flags_of(flags_bitfield));
    flags
}

/// The flag byte of a list of flags: the OR of their bits.
pub fn compile_attribute_flags(flags: &Vec<AttributeFlag>) -> (r: u8)
    ensures
        r == bits_of(flags@),
{
    let mut bitfield: u8 = 0;
    let mut k: usize = 0;
    while k < flags.len()
        invariant
            k <= flags@.len(),
            bitfield == bits_of(flags@.take(k as int)),
        decreases flags@.len() - k,
    {
        assert(flags@.take(k + 1).drop_last() =~= flags@.take(k as int));
        bitfield = bitfield | flags[k].bit();
        k = k + 1;
    }
    assert(flags@.take(k as int) =~= flags@);
    bitfield
}

/// Whether the extended-length flag is in the list.
fn has_extended_length(flags: &Vec<AttributeFlag>) -> (r: bool)
    ensures
        r == is_extended(flags@),
{
    let mut k: usize = 0;
    while k < flags.len()
        invariant
            k <= flags@.len(),
            forall|j: int| 0 <= j < k ==> flags@[j] != AttributeFlag::ExtendedLength,
        decreases flags@.len() - k,
    {
        if flags[k] == AttributeFlag::ExtendedLength {
            return true;
        }
        k = k + 1;
    }
    false
}

/// Decodes the attribute at the start of `data`: the attribute and the bytes it took.
pub fn decode_attribute(data: &[u8]) -> (r: Result<(PathAttribute, usize), BgpError>)
    ensures
        match parse_attribute(data@) {
            Ok((a, n)) => r matches Ok((b, m)) && b@ == a && m == n,
            Err(e) => r == Err::<(PathAttribute, usize), _>(e),
        },
{
    let left = data.len();
    if left < 3 {
        return Err(BgpError::Truncated);
    }
    let flag_byte = data[0];
    let extended = flag_byte & 0x10 != 0;
    let head: usize = if extended { 4 } else { 3 };
    if left < head {
        return Err(BgpError::Truncated);
    }
    let len: usize = if extended { read_u16(data, 2) as usize } else { data[2] as usize };
    if left - head < len {
        return Err(BgpError::Truncated);
    }
    let flags = extract_attribute_flags(flag_byte);
    let type_code = AttributeType::from_code(data[1]);
    let value = copy_range(data, head, head + len);
    Ok((PathAttribute { flags, type_code, value }, head + len))
}

/// Decodes a list of path attributes that fills `data` exactly.
pub fn extract_path_attributes(data: &[u8]) -> (r: Result<Vec<PathAttribute>, BgpError>)
    ensures
        r matches Ok(v) ==> parse_attributes(data@) == Ok::<_, BgpError>(attribute_views(v@)),
        r matches Err(e) ==> parse_attributes(data@) == Err::<Seq<(Seq<AttributeFlag>, AttributeType, Seq<u8>)>, _>(e),
{
    let mut path_attributes: Vec<PathAttribute> = Vec::new();
    let mut i: usize = 0;
    proof {
        assert(data@.skip(0) =~= data@);
        assert(attribute_views(path_attributes@) =~= Seq::<(Seq<AttributeFlag>, AttributeType, Seq<u8>)>::empty());
        lemma_after_empty(parse_attributes(data@));
    }
    while i < data.len()
        invariant
            i <= data@.len(),
            parse_attributes(data@) == after(attribute_views(path_attributes@), parse_attributes(data@.skip(i as int))),
        decreases data@.len() - i,
    {
        let rest = Ghost(data@.skip(i as int));
        let (a, n) = match decode_attribute(&data[i..data.len()]) {
            Ok(r) => r,
            Err(e) => {
                assert(data@.subrange(i as int, data@.len() as int) =~= rest@);
                return Err(e);
            },
        };
        proof {
            assert(data@.subrange(i as int, data@.len() as int) =~= rest@);
            assert(rest@.skip(n as int) =~= data@.skip(i + n));
            assert(attribute_views(path_attributes@.push(a)) =~= attribute_views(path_attributes@) + seq![a@]);
            lemma_after_after(attribute_views(path_attributes@), seq![a@], parse_attributes(data@.skip(i + n)));
        }
        path_attributes.push(a);
        i = i + n;
    }
    assert(data@.skip(i as int).len() == 0);
    assert(attribute_views(path_attributes@) + seq![] =~= attribute_views(path_attributes@));
    Ok(path_attributes)
}

/// Appends the wire form of `a`. A value too long for the length field that the
/// flags select is refused: its length would not survive the trip.
pub fn encode_attribute(out: &mut Vec<u8>, a: &PathAttribute) -> (r: Result<(), BgpError>)
    ensures
        fits_length(a@) <==> r is Ok,
        r is Ok ==> final(out)@ == old(out)@ + attribute_bytes(a@),
        r matches Err(e) ==> e == BgpError::LengthFlagMismatch && final(out)@ == old(out)@,
{
    let extended = has_extended_length(&a.flags);
    let len = a.value.len();
    if extended && len > 0xffff || !extended && len > 0xff {
        return Err(BgpError::LengthFlagMismatch);
    }
    let ghost before = out@;
    out.push(compile_attribute_flags(&a.flags));
    out.push(a.type_code.code());
    if extended {
        push_u16(out, len as u16);
    } else {
        out.push(len as u8);
    }
    push_all(out, a.value.as_slice());
    assert(out@ =~= before + attribute_bytes(a@));
    Ok(())
}

/// Encodes the attributes back to back. An attribute whose value does not fit the
/// length field that its flags select is refused.
pub fn compile_path_attributes(attributes: Vec<PathAttribute>) -> (r: Result<Vec<u8>, BgpError>)
    ensures
        (forall|k: int| 0 <= k < attributes@.len() ==> fits_length(#[trigger] attributes@[k]@)) <==> r is Ok,
        r matches Ok(b) ==> b@ == attributes_bytes(attribute_views(attributes@)),
        r matches Err(e) ==> e == BgpError::LengthFlagMismatch,
{
    let mut buffer: Vec<u8> = Vec::new();
    let mut k: usize = 0;
    assert(attribute_views(attributes@).skip(0) =~= attribute_views(attributes@));
    assert(buffer@ + attributes_bytes(attribute_views(attributes@)) =~= attributes_bytes(attribute_views(attributes@)));
    while k < attributes.len()
        invariant
            k <= attributes@.len(),
            forall|j: int| 0 <= j < k ==> fits_length(#[trigger] attributes@[j]@),
            attributes_bytes(attribute_views(attributes@)) == buffer@ + attributes_bytes(attribute_views(attributes@).skip(k as int)),
        decreases attributes@.len() - k,
    {
        let a = &attributes[k];
        match encode_attribute(&mut buffer, a) {
            Ok(()) => {},
            Err(e) => {
                return Err(e);
            },
        }
        proof {
            assert(attribute_views(attributes@).skip(k as int).skip(1) =~= attribute_views(attributes@).skip(k + 1));
            assert(attribute_views(attributes@).skip(k as int)[0] == a@);
        }
        k = k + 1;
    }
    assert(attribute_views(attributes@).skip(k as int) =~= seq![]);
    assert(buffer@ + seq![] =~= buffer@);
    Ok(buffer)
}

} // verus!
