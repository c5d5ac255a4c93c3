//! Feeding the video frames of a Matroska file to an H.264 decoder.
//!
//! Matroska stores each H.264 access unit behind a 4-byte length; the
//! decoder takes Annex B units, behind a start code. The feeder turns each
//! video frame into such a unit and stops the feeding after
//! [`MAX_PACKETS`] units.
use vstd::prelude::*;
use crate::avc::{append_range, start_code};

verus! {

/// Number of video packets fed before the feeding stops.
pub const MAX_PACKETS: u32 = 1000;

/// What to do with a frame read from the file.
pub enum FeedAction {
    /// Not a video frame: nothing to feed.
    Skip,
    /// Feed [`PacketFeeder::packet`] to the decoder and go on reading.
    Feed,
    /// Feed [`PacketFeeder::packet`] to the decoder and stop reading.
    FeedAndStop,
}

/// The packet buffer and the number of packets fed so far.
pub struct PacketFeeder {
    packet: Vec<u8>,
    num_packets: u32,
}

/// The Annex B unit for a frame: the start code, then the frame without
/// its 4-byte length.
pub open spec fn annex_b_packet(frame: Seq<u8>) -> Seq<u8> {
    start_code() + frame.skip(4)
}

impl PacketFeeder {
    #[verifier::type_invariant]
    spec fn inv(self) -> bool {
        &&& self.packet@.len() >= 4
        &&& self.packet@.subrange(0, 4) == start_code()
        &&& self.num_packets <= MAX_PACKETS + 1
    }

    /// The packet to feed after the last [`FeedAction::Feed`] or
    /// [`FeedAction::FeedAndStop`].
    pub closed spec fn spec_packet(self) -> Seq<u8> {
        self.packet@
    }

    /// Packets fed so far.
    pub closed spec fn spec_num_packets(self) -> nat {
        self.num_packets as nat
    }

    /// A feeder that has fed nothing.
    pub fn new() -> (f: Self)
        ensures
            f.spec_packet() == start_code(),
            f.spec_num_packets() == 0,
    {
        let mut packet: Vec<u8> = Vec::new();
        packet.push(0);
        packet.push(0);
        packet.push(0);
        packet.push(1);
        assert(packet@ =~= start_code());
        assert(packet@.subrange(0, 4) =~= start_code());
        PacketFeeder { packet, num_packets: 0 }
    }

    /// The packet to feed.
    pub fn packet(&self) -> (p: &Vec<u8>)
        ensures
            p@ == self.spec_packet(),
    {
        &self.packet
    }

    /// Packets fed so far.
    pub fn num_packets(&self) -> (n: u32)
        ensures
            n == self.spec_num_packets(),
    {
        self.num_packets
    }

    /// Takes the next frame of the file. A video frame becomes the packet
    /// to feed; the feeding stops once more than [`MAX_PACKETS`] have been
    /// fed.
    pub fn on_frame(&mut self, is_video: bool, frame: &[u8]) -> (action: FeedAction)
        requires
            is_video ==> frame@.len() >= 4,
            old(self).spec_num_packets() <= MAX_PACKETS,
        ensures
            !is_video ==> action == FeedAction::Skip && *final(self) == *old(self),
            is_video ==> final(self).spec_packet() == annex_b_packet(frame@)
                && final(self).spec_num_packets() == old(self).spec_num_packets() + 1
                && action == if final(self).spec_num_packets() > MAX_PACKETS {
                    FeedAction::FeedAndStop
                } else {
                    FeedAction::Feed
                },
    {
        proof {
            use_type_invariant(&*self);
        }
        if !is_video {
            return FeedAction::Skip;
        }
        let mut packet: Vec<u8> = Vec::new();
        packet.push(0);
        packet.push(0);
        packet.push(0);
        packet.push(1);
        assert(packet@ =~= start_code());
        append_range(&mut packet, frame, 4, frame.len());
        assert(packet@.subrange(0, 4) =~= start_code());
        self.packet = packet;
        self.num_packets = self.num_packets + 1;
        if self.num_packets > MAX_PACKETS {
            FeedAction::FeedAndStop
        } else {
            FeedAction::Feed
        }
    }
}

/// The packet for a frame of at least four bytes is as long as the frame:
/// the bytes `00 00 00 01` in place of the frame's first four, whatever
/// they hold, then every other byte of the frame unchanged.
pub proof fn lemma_packet_replaces_length_prefix(frame: Seq<u8>)
    requires
        frame.len() >= 4,
    ensures
        annex_b_packet(frame).len() == frame.len(),
        annex_b_packet(frame).subrange(0, 4) == seq![0u8, 0u8, 0u8, 1u8],
        annex_b_packet(frame).subrange(4, frame.len() as int) == frame.subrange(4, frame.len() as int),
{
    let p = annex_b_packet(frame);
    assert(p.subrange(0, 4) =~= seq![0u8, 0u8, 0u8, 1u8]);
    assert(p.subrange(4, frame.len() as int) =~= frame.subrange(4, frame.len() as int));
}

} // verus!
