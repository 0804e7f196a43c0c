//! The memory fabric: memory modules seen from their owner as a send/receive
//! interface speaking some protocol.
use vstd::prelude::*;

verus! {

/// The kinds of message a memory module can receive and send.
pub trait MemProtocol {
    type Req;
    type Resp;
}

pub type RequestId = u8;

/// A memory module as its owner sees it.
pub trait Memory<P: MemProtocol> {
    /// The module's internal consistency.
    open spec fn mem_inv(&self) -> bool {
        true
    }

    /// The module keeps `requests` as the log of what it was sent. A module
    /// written outside verification keeps the default and promises nothing
    /// about its log.
    open spec fn obeys_request_log() -> bool {
        false
    }

    /// Every request the module has been sent, oldest first.
    open spec fn requests(&self) -> Seq<P::Req> {
        Seq::empty()
    }

    /// Sending `req` can take the module from `self` to `next` and give it the id `id`.
    open spec fn send_step(&self, next: &Self, req: P::Req, id: RequestId) -> bool {
        true
    }

    /// Taking a response can take the module from `self` to `next` and give `r`.
    open spec fn recv_step(&self, next: &Self, r: Option<P::Resp>) -> bool {
        true
    }

    /// One cycle can take the module from `self` to `next`.
    open spec fn tick_step(&self, next: &Self) -> bool {
        true
    }

    /// Submits a request; the returned id comes back with its response.
    fn send(&mut self, req: P::Req) -> (id: RequestId)
        requires
            old(self).mem_inv(),
        ensures
            final(self).mem_inv(),
            Self::obeys_request_log() ==> final(self).requests() == old(self).requests().push(req),
            old(self).send_step(&*final(self), req, id),
    ;

    /// Takes the next response, if one is ready.
    fn recv(&mut self) -> (r: Option<P::Resp>)
        requires
            old(self).mem_inv(),
        ensures
            final(self).mem_inv(),
            final(self).requests() == old(self).requests(),
            old(self).recv_step(&*final(self), r),
    ;

    /// Advances the module by one cycle.
    fn tick(&mut self)
        requires
            old(self).mem_inv(),
        ensures
            final(self).mem_inv(),
            final(self).requests() == old(self).requests(),
            old(self).tick_step(&*final(self)),
    ;
}

/// Simplest memory protocol with straightforward reads and writes only.
pub struct SimpleRW;

/// Read the word at an address.
pub struct ReadReq(pub u32);

/// Write a value (second field) to an address (first field).
pub struct WriteReq(pub u32, pub u32);

pub enum SimpleRWReq {
    Read(ReadReq),
    Write(WriteReq),
}

impl From<ReadReq> for SimpleRWReq {
    fn from(r: ReadReq) -> (ret: Self) {
        Self::Read(r)
    }
}

impl vstd::std_specs::convert::FromSpecImpl<ReadReq> for SimpleRWReq {
    open spec fn obeys_from_spec() -> bool {
        true
    }

    open spec fn from_spec(r: ReadReq) -> Self {
        Self::Read(r)
    }
}

impl From<WriteReq> for SimpleRWReq {
    fn from(w: WriteReq) -> (ret: Self) {
        Self::Write(w)
    }
}

impl vstd::std_specs::convert::FromSpecImpl<WriteReq> for SimpleRWReq {
    open spec fn obeys_from_spec() -> bool {
        true
    }

    open spec fn from_spec(w: WriteReq) -> Self {
        Self::Write(w)
    }
}

/// The value read, under the id of the request.
pub struct ReadResp(pub RequestId, pub u32);

/// The acknowledgement of a write, under the id of the request.
pub struct WriteResp(pub RequestId);

pub enum SimpleRWResp {
    Read(ReadResp),
    Write(WriteResp),
}

impl From<ReadResp> for SimpleRWResp {
    fn from(r: ReadResp) -> (ret: Self) {
        Self::Read(r)
    }
}

impl vstd::std_specs::convert::FromSpecImpl<ReadResp> for SimpleRWResp {
    open spec fn obeys_from_spec() -> bool {
        true
    }

    open spec fn from_spec(r: ReadResp) -> Self {
        Self::Read(r)
    }
}

impl From<WriteResp> for SimpleRWResp {
    fn from(w: WriteResp) -> (ret: Self) {
        Self::Write(w)
    }
}

impl vstd::std_specs::convert::FromSpecImpl<WriteResp> for SimpleRWResp {
    open spec fn obeys_from_spec() -> bool {
        true
    }

    open spec fn from_spec(w: WriteResp) -> Self {
        Self::Write(w)
    }
}

impl MemProtocol for SimpleRW {
    type Req = SimpleRWReq;
    type Resp = SimpleRWResp;
}

} // verus!
