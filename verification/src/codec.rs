//! Errors of the message codec.
use vstd::prelude::*;

verus! {

/// Encoding failed; when the message survived it is handed back.
pub struct EncodeError<M> {
    pub io_error: std::io::Error,
    pub msg: Option<M>,
}

/// An error that may carry back the message that could not be sent.
pub trait ErrWithMsg<M> {
    fn into_inner(self) -> Option<M>;
}

impl<M> ErrWithMsg<M> for EncodeError<M> {
    fn into_inner(self) -> (r: Option<M>)
        ensures
            r == self.msg,
    {
        self.msg
    }
}

impl<M> From<std::io::Error> for EncodeError<M> {
    /// An I/O failure that lost the message.
    fn from(err: std::io::Error) -> (r: Self)
        ensures
            r == (EncodeError::<M> { io_error: err, msg: None }),
    {
        EncodeError { io_error: err, msg: None }
    }
}

impl<M> vstd::std_specs::convert::FromSpecImpl<std::io::Error> for EncodeError<M> {
    open spec fn obeys_from_spec() -> bool {
        true
    }

    open spec fn from_spec(v: std::io::Error) -> Self {
        EncodeError { io_error: v, msg: None }
    }
}

} // verus!
