//! Notification: an error code, a subcode, and opaque data.
use vstd::prelude::*;
use crate::errors::BgpError;
use crate::wire::copy_range;

verus! {

#[derive(Debug, Clone, PartialEq, Eq)]
pub struct BGPNotification {
    pub error_code: u8,
    pub error_subcode: u8,
    pub data: Vec<u8>,
}

impl View for BGPNotification {
    type V = (u8, u8, Seq<u8>);

    open spec fn view(&self) -> (u8, u8, Seq<u8>) {
        (self.error_code, self.error_subcode, self.data@)
    }
}

/// Decodes a Notification body: two fixed bytes, then the data to the end.
pub open spec fn parse_notification(b: Seq<u8>) -> Result<(u8, u8, Seq<u8>), BgpError> {
    if b.len() < 2 {
        Err(BgpError::Truncated)
    } else {
        Ok((b[0], b[1], b.skip(2)))
    }
}

impl BGPNotification {
    /// Decodes a Notification body.
    pub fn decode(buf: &[u8]) -> (r: Result<BGPNotification, BgpError>)
        ensures
            r matches Ok(n) ==> parse_notification(buf@) == Ok::<_, BgpError>(n@),
            r matches Err(e) ==> parse_notification(buf@) == Err::<(u8, u8, Seq<u8>), _>(e),
    {
        if buf.len() < 2 {
            return Err(BgpError::Truncated);
        }
        let data = copy_range(buf, 2, buf.len());
        assert(data@ =~= buf@.skip(2));
        Ok(BGPNotification { error_code: buf[0], error_subcode: buf[1], data })
    }
}

} // verus!
