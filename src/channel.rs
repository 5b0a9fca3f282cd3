//! The parameter channel: a bounded lock-free queue from the thread that holds a
//! node's handle to the thread that processes the node, one per node.
//!
//! The queue is rtrb's single-producer single-consumer ring buffer. Its state is
//! shared by both ends, so from either end alone nothing is known of how full it
//! is: a send either queues the message or hands it back.
use vstd::prelude::*;

verus! {

#[verifier::external_type_specification]
#[verifier::external_body]
#[verifier::reject_recursive_types(T)]
pub struct ExProducer<T>(rtrb::Producer<T>);

#[verifier::external_type_specification]
#[verifier::external_body]
#[verifier::reject_recursive_types(T)]
pub struct ExConsumer<T>(rtrb::Consumer<T>);

/// Number of messages a node's queue holds unless another size is asked for.
pub const DEFAULT_QUEUE_SIZE: usize = 64;

/// Largest queue size accepted, so that the queue's storage can always be allocated.
pub const MAX_QUEUE_SIZE: usize = 1048576;

/// Relies on rtrb::RingBuffer::new: a fresh empty queue with room for
/// `capacity` items, returned as its producing and consuming ends.
#[verifier::external_body]
pub(crate) fn ring_buffer<T>(capacity: usize) -> (rtrb::Producer<T>, rtrb::Consumer<T>)
    requires
        capacity <= MAX_QUEUE_SIZE,
{
    rtrb::RingBuffer::new(capacity)
}

/// Relies on rtrb::Producer::push: the value is either queued, or handed back
/// unchanged when the queue is full.
#[verifier::external_body]
pub(crate) fn push<T>(producer: &mut rtrb::Producer<T>, value: T) -> (r: Result<(), T>)
    ensures
        r matches Err(v) ==> v == value,
{
    producer.push(value).map_err(|rtrb::PushError::Full(v)| v)
}

} // verus!
