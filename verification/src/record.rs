//! The relay record: what the proxy route keeps of an upstream body.

use crate::json::RecordView;
use vstd::prelude::*;

verus! {

/// Decoded shape of the upstream's JSON response body: an optional
/// integer status and an optional message, both degraded to `None` when
/// absent or of the wrong type.
pub struct IOCall {
    pub status: Option<i64>,
    pub msg: Option<String>,
}

impl View for IOCall {
    type V = RecordView;

    open spec fn view(&self) -> RecordView {
        RecordView {
            status: match self.status {
                Option::Some(n) => Option::Some(n as int),
                Option::None => Option::None,
            },
            msg: match self.msg {
                Option::Some(ref m) => Option::Some(m@),
                Option::None => Option::None,
            },
        }
    }
}

} // verus!
