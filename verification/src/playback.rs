//! The playback pipeline's rules: which track is decoded, how decoded
//! packets become one sample buffer, how the output stream is configured,
//! and what the output callback hands to the device.
//!
//! Samples are carried as the bit patterns of 32-bit floating-point numbers.
//! Silence is the pattern of positive zero, which is the integer zero.

use vstd::prelude::*;

verus! {

/// The sample that stands for silence.
pub const SILENCE: u32 = 0;

/// Why a playback attempt was given up.
#[derive(Debug, Clone, Copy, PartialEq, Eq, Structural)]
pub enum PlaybackError {
    /// The file could not be read, or its container was not recognised.
    Unreadable,
    /// No track of the file has a codec that can be decoded.
    NoDecodableTrack,
    /// Not a single packet of the track could be decoded.
    Decode,
    /// The output stream could not be configured for the track.
    DeviceConfig,
}

/// The part of an output stream's configuration that playback decides.
#[derive(Debug, Clone, Copy, PartialEq, Eq, Structural)]
pub struct StreamSettings {
    pub channels: u16,
    pub sample_rate: u32,
}

/// Picks the track to play: the first one whose codec can be decoded.
/// `decodable[i]` says whether track `i` has a recognised codec.
pub fn select_track(decodable: &[bool]) -> (r: Result<usize, PlaybackError>)
    ensures
        match r {
            Ok(i) => i < decodable@.len() && decodable@[i as int] && forall|j: int|
                0 <= j < i ==> !decodable@[j],
            Err(e) => e == PlaybackError::NoDecodableTrack && forall|j: int|
                0 <= j < decodable@.len() ==> !decodable@[j],
        },
{
    let mut i: usize = 0;
    while i < decodable.len()
        invariant
            i <= decodable@.len(),
            forall|j: int| 0 <= j < i ==> !decodable@[j],
        decreases decodable@.len() - i,
    {
        if decodable[i] {
            return Ok(i);
        }
        i += 1;
    }
    Err(PlaybackError::NoDecodableTrack)
}

/// The configuration of the output stream for a track: the device's default
/// with the sample rate replaced by the track's own and a single channel.
/// A track that does not state its sample rate cannot be configured for.
pub fn playback_settings(device_default: StreamSettings, track_rate: Option<u32>) -> (r: Result<
    StreamSettings,
    PlaybackError,
>)
    ensures
        match track_rate {
            Some(rate) => r == Ok::<StreamSettings, PlaybackError>(
                (StreamSettings { channels: 1, sample_rate: rate }),
            ),
            None => r == Err::<StreamSettings, PlaybackError>(PlaybackError::DeviceConfig),
        },
{
    match track_rate {
        Some(rate) => {
            let mut settings = device_default;
            settings.sample_rate = rate;
            settings.channels = 1;
            Ok(settings)
        },
        None => Err(PlaybackError::DeviceConfig),
    }
}

/// The sample at position `at` of a stream that plays `samples` and then
/// silence for ever.
pub open spec fn sample_at(samples: Seq<u32>, at: int) -> u32 {
    if 0 <= at < samples.len() {
        samples[at]
    } else {
        SILENCE
    }
}

/// The `count` samples that the stream gives from position `from` on.
pub open spec fn rendered(samples: Seq<u32>, from: int, count: nat) -> Seq<u32> {
    Seq::new(count, |i: int| sample_at(samples, from + i))
}

/// Where the cursor stands after `count` more samples were asked for: it
/// moves forward and stops at the end of the buffer.
pub open spec fn advanced(samples: Seq<u32>, from: nat, count: nat) -> nat {
    if from + count <= samples.len() {
        from + count
    } else if from <= samples.len() {
        samples.len()
    } else {
        from
    }
}

/// A fully decoded track together with the read cursor of the output
/// callback that owns it.
pub struct SampleBuffer {
    samples: Vec<u32>,
    cursor: usize,
}

impl SampleBuffer {
    #[verifier::type_invariant]
    spec fn within(&self) -> bool {
        self.cursor <= self.samples@.len()
    }

    /// The decoded samples.
    pub closed spec fn samples(&self) -> Seq<u32> {
        self.samples@
    }

    /// The number of buffered samples that were handed out so far.
    pub closed spec fn position(&self) -> nat {
        self.cursor as nat
    }

    /// A buffer over `samples` with the cursor at its start.
    pub fn new(samples: Vec<u32>) -> (buffer: SampleBuffer)
        ensures
            buffer.samples() == samples@,
            buffer.position() == 0,
    {
        SampleBuffer { samples, cursor: 0 }
    }

    /// The number of samples in the buffer.
    pub fn len(&self) -> (n: usize)
        ensures
            n == self.samples().len(),
    {
        self.samples.len()
    }

    /// The cursor: how many buffered samples were handed out so far.
    pub fn cursor(&self) -> (at: usize)
        ensures
            at == self.position(),
            at <= self.samples().len(),
    {
        proof {
            use_type_invariant(self);
        }
        self.cursor
    }

    /// Whether every buffered sample was handed out, so that only silence
    /// follows.
    pub fn is_exhausted(&self) -> (done: bool)
        ensures
            done == (self.position() == self.samples().len()),
    {
        proof {
            use_type_invariant(self);
        }
        self.cursor == self.samples.len()
    }

    /// Hands out the sample under the cursor and moves the cursor on; past
    /// the end of the buffer it hands out silence and the cursor stays.
    pub fn next_sample(&mut self) -> (sample: u32)
        ensures
            sample == sample_at(old(self).samples(), old(self).position() as int),
            final(self).samples() == old(self).samples(),
            final(self).position() == advanced(old(self).samples(), old(self).position(), 1),
    {
        proof {
            use_type_invariant(&*self);
        }
        if self.cursor < self.samples.len() {
            let sample = self.samples[self.cursor];
            self.cursor = self.cursor + 1;
            sample
        } else {
            SILENCE
        }
    }

    /// One invocation of the output callback for a block of `frames`
    /// samples: the samples from the cursor on, followed by silence once the
    /// buffer is exhausted. The cursor moves past what was handed out.
    pub fn render(&mut self, frames: usize) -> (block: Vec<u32>)
        ensures
            block@ == rendered(old(self).samples(), old(self).position() as int, frames as nat),
            final(self).samples() == old(self).samples(),
            final(self).position() == advanced(
                old(self).samples(),
                old(self).position(),
                frames as nat,
            ),
    {
        proof {
            use_type_invariant(&*self);
        }
        let ghost start = self.position();
        let ghost samples = self.samples();
        let mut block: Vec<u32> = Vec::new();
        let mut done: usize = 0;
        while done < frames
            invariant
                done <= frames,
                self.samples() == samples,
                start <= samples.len(),
                self.position() == advanced(samples, start, done as nat),
                block@ == rendered(samples, start as int, done as nat),
            decreases frames - done,
        {
            let sample = self.next_sample();
            block.push(sample);
            done += 1;
        }
        block
    }
}

/// Gathers the decoded packets of the chosen track into its sample buffer.
/// Packets of other tracks are passed over. The packets of the chosen track
/// are taken in order until the first one that fails; what was decoded up to
/// there is the track.
pub struct TrackLoader {
    track: u32,
    samples: Vec<u32>,
    decoded: bool,
    open: bool,
}

impl TrackLoader {
    /// The id of the track that is gathered.
    pub closed spec fn track(&self) -> u32 {
        self.track
    }

    /// The samples gathered so far.
    pub closed spec fn samples(&self) -> Seq<u32> {
        self.samples@
    }

    /// Whether at least one packet was decoded.
    pub closed spec fn has_decoded(&self) -> bool {
        self.decoded
    }

    /// Whether further packets are still taken.
    pub closed spec fn is_open(&self) -> bool {
        self.open
    }

    /// A loader for the track with the id `track` that holds no samples yet.
    /// `expected_frames` is the number of samples the track announces, used
    /// to reserve room.
    pub fn new(track: u32, expected_frames: usize) -> (loader: TrackLoader)
        ensures
            loader.track() == track,
            loader.samples() == Seq::<u32>::empty(),
            !loader.has_decoded(),
            loader.is_open(),
    {
        TrackLoader {
            track,
            samples: Vec::with_capacity(expected_frames),
            decoded: false,
            open: true,
        }
    }

    /// Whether a packet of the track with the id `track` is to be decoded:
    /// only packets of the chosen track are, and only while the loader is
    /// open.
    pub fn wants(&self, track: u32) -> (wanted: bool)
        ensures
            wanted == (self.is_open() && track == self.track()),
    {
        self.open && track == self.track
    }

    /// Takes the next packet of the container: the id of its track and the
    /// outcome of decoding it, the samples of its first plane or `None`
    /// where it could not be decoded. A packet of another track is passed
    /// over, whatever its outcome. Samples of the chosen track are appended
    /// while the loader is open; its first failure closes the loader, and a
    /// closed loader takes nothing more. Returns whether the caller should
    /// go on reading packets.
    pub fn accept(&mut self, track: u32, packet: Option<&[u32]>) -> (more: bool)
        ensures
            final(self).track() == old(self).track(),
            more == (old(self).is_open() && (track != old(self).track() || packet is Some)),
            final(self).is_open() == more,
            final(self).has_decoded() == (old(self).has_decoded() || (more && track == old(
                self,
            ).track())),
            final(self).samples() == if more && track == old(self).track() {
                old(self).samples() + packet->0@
            } else {
                old(self).samples()
            },
    {
        if !self.open {
            return false;
        }
        if track != self.track {
            return true;
        }
        match packet {
            Some(plane) => {
                let mut i: usize = 0;
                while i < plane.len()
                    invariant
                        i <= plane@.len(),
                        self.samples@ == old(self).samples@ + plane@.take(i as int),
                        self.open == old(self).open,
                        self.decoded == old(self).decoded,
                        self.track == old(self).track,
                    decreases plane@.len() - i,
                {
                    self.samples.push(plane[i]);
                    assert(plane@.take(i + 1) == plane@.take(i as int).push(plane@[i as int]));
                    i += 1;
                }
                assert(plane@.take(i as int) == plane@);
                self.decoded = true;
                true
            },
            None => {
                self.open = false;
                false
            },
        }
    }

    /// Ends the load. A track of which nothing was decoded is a decode
    /// error; otherwise the gathered samples become the playback buffer,
    /// with the cursor at its start.
    pub fn finish(self) -> (r: Result<SampleBuffer, PlaybackError>)
        ensures
            match r {
                Ok(buffer) => self.has_decoded() && buffer.samples() == self.samples()
                    && buffer.position() == 0,
                Err(e) => !self.has_decoded() && e == PlaybackError::Decode,
            },
    {
        if self.decoded {
            Ok(SampleBuffer::new(self.samples))
        } else {
            Err(PlaybackError::Decode)
        }
    }
}

/// Playing a buffer from its start for longer than it lasts gives every
/// sample of the buffer once, in order, and silence after them.
pub proof fn playback_runs_into_silence(samples: Seq<u32>, extra: nat)
    ensures
        rendered(samples, 0, samples.len() + extra) == samples + Seq::new(extra, |i: int| SILENCE),
        advanced(samples, 0, samples.len() + extra) == samples.len(),
{
}

/// A stream renders the same samples whether it is asked for them in one
/// block or in two: after `first` samples were handed out, the next request
/// continues with sample `first`. Suspending and resuming the stream between
/// the two requests only delays the second one, so playback goes on where it
/// stopped.
pub proof fn rendering_resumes_where_it_stopped(samples: Seq<u32>, first: nat, then: nat)
    ensures
        rendered(samples, 0, first) + rendered(samples, first as int, then) == rendered(
            samples,
            0,
            first + then,
        ),
        first + then <= samples.len() ==> rendered(samples, first as int, then)
            == samples.subrange(first as int, (first + then) as int),
        advanced(samples, advanced(samples, 0, first), then) == advanced(samples, 0, first + then),
{
}

} // verus!
