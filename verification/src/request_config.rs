//! Request configuration: the options handed to the kernel at line request
//! time, a consumer label and an event-buffer size hint.

use vstd::prelude::*;
use vstd::string::StringSliceAdditionalSpecFns;
use vstd::utf8::{encode_utf8, is_char_boundary};
use crate::{Error, OperationType, Result};

verus! {

/// The kernel stores at most this many bytes of a consumer name.
pub const CONSUMER_MAX_BYTES: usize = 31;

/// The largest index at most `k` that falls on a character boundary of
/// `bytes`.
pub open spec fn boundary_at_most(bytes: Seq<u8>, k: int) -> int
    decreases k,
{
    if k <= 0 {
        0int
    } else if is_char_boundary(bytes, k) {
        k
    } else {
        boundary_at_most(bytes, k - 1)
    }
}

/// The consumer name the kernel keeps for the given input: the input
/// itself when its encoding fits, else its longest whole-character prefix
/// of at most `CONSUMER_MAX_BYTES` bytes.
pub open spec fn stored_consumer(input: Seq<char>, stored: Seq<char>) -> bool {
    if encode_utf8(input).len() <= CONSUMER_MAX_BYTES {
        stored == input
    } else {
        encode_utf8(stored) == encode_utf8(input).subrange(
            0,
            boundary_at_most(encode_utf8(input), CONSUMER_MAX_BYTES as int),
        )
    }
}

/// Request config objects.
///
/// Request config objects are used to pass a set of options to the kernel
/// at the time of the line request.
#[derive(Debug, Eq, PartialEq)]
pub struct Config {
    pub consumer_name: Option<String>,
    pub buffer_size: usize,
}

impl Config {
    /// Create a new request config object: no consumer name, and a zero
    /// event-buffer size, which asks for the kernel default.
    pub fn new() -> (r: Result<Self>)
        ensures
            r matches Ok(c) && c.consumer_name is None && c.buffer_size == 0,
    {
        Ok(Config { consumer_name: None, buffer_size: 0 })
    }

    /// Set the consumer name for the request. A name holding a NUL byte is
    /// rejected; a name longer than the kernel limit is truncated to its
    /// longest whole-character prefix that fits.
    pub fn set_consumer(&mut self, consumer: &str) -> (r: Result<()>)
        ensures
            r is Ok <==> (forall|i: int|
                0 <= i < consumer.spec_bytes().len() ==> consumer.spec_bytes()[i] != 0),
            r is Ok ==> (final(self).consumer_name matches Some(s) && stored_consumer(
                consumer@,
                s@,
            )) && final(self).buffer_size == old(self).buffer_size,
            r is Err ==> *final(self) == *old(self) && r == Err::<(), Error>(Error::InvalidString),
    {
        let bytes = consumer.as_bytes();
        let mut i: usize = 0;
        while i < bytes.len()
            invariant
                bytes@ == consumer.spec_bytes(),
                i <= bytes@.len(),
                forall|k: int| 0 <= k < i ==> bytes@[k] != 0,
            decreases bytes@.len() - i,
        {
            if bytes[i] == 0 {
                return Err(Error::InvalidString);
            }
            i = i + 1;
        }
        if consumer.len() <= CONSUMER_MAX_BYTES {
            self.consumer_name = Some(consumer.to_owned());
        } else {
            proof {
                vstd::utf8::encode_utf8_valid_utf8(consumer@);
            }
            let mut m: usize = CONSUMER_MAX_BYTES;
            while !consumer.is_char_boundary(m)
                invariant
                    0 <= m <= CONSUMER_MAX_BYTES,
                    vstd::utf8::valid_utf8(consumer.spec_bytes()),
                    boundary_at_most(consumer.spec_bytes(), CONSUMER_MAX_BYTES as int)
                        == boundary_at_most(consumer.spec_bytes(), m as int),
                    CONSUMER_MAX_BYTES < consumer.spec_bytes().len(),
                decreases m,
            {
                proof {
                    assert(is_char_boundary(consumer.spec_bytes(), 0));
                }
                m = m - 1;
            }
            let (head, _) = consumer.split_at(m);
            proof {
                assert(boundary_at_most(consumer.spec_bytes(), CONSUMER_MAX_BYTES as int)
                    == m as int);
                assert(encode_utf8(head@) == head.spec_bytes());
            }
            self.consumer_name = Some(head.to_owned());
        }
        Ok(())
    }

    /// Get the consumer name configured in the request config. Fails when
    /// no consumer name was set.
    pub fn consumer(&self) -> (r: Result<&str>)
        ensures
            self.consumer_name matches Some(s) ==> (r matches Ok(c) && c@ == s@),
            self.consumer_name is None ==> r == Err::<&str, Error>(
                Error::OperationFailed(
                    OperationType::RequestConfigGetConsumer,
                    errno::Errno(0),
                ),
            ),
    {
        match &self.consumer_name {
            Some(s) => Ok(s.as_str()),
            None => Err(
                Error::OperationFailed(OperationType::RequestConfigGetConsumer, errno::Errno(0)),
            ),
        }
    }

    /// Set the size of the kernel event buffer for the request. Zero asks
    /// for the kernel default.
    pub fn set_event_buffer_size(&mut self, size: usize)
        ensures
            final(self).buffer_size == size,
            final(self).consumer_name == old(self).consumer_name,
    {
        self.buffer_size = size;
    }

    /// Get the edge event buffer size setting for the request config.
    pub fn event_buffer_size(&self) -> (r: usize)
        ensures
            r == self.buffer_size,
    {
        self.buffer_size
    }
}

} // verus!
