//! The lazy image stream over a monitor's shared image ring.

use vstd::prelude::*;

verus! {

use crate::monitor::{Monitor, SubpixelOrder};
use crate::ports::{ShmError, ShmPort};
use crate::shm::spec_field_offset_of;
use vstd::string::StringSliceAdditionalSpecFns;

/// One raw frame: pixel bytes in the declared subpixel order.
pub struct Image {
    pub data: Vec<u8>,
    pub width: u32,
    pub height: u32,
    pub format: SubpixelOrder,
}

/// A colour conversion the image library is asked for.
#[derive(Clone, Copy, Debug, PartialEq, Eq, Structural)]
pub enum ColorConversion {
    Gray2Rgb,
    Bgr2Rgb,
    Bgra2Rgb,
    Rgba2Rgb,
    Gray2Rgba,
    Rgb2Rgba,
    Bgr2Rgba,
    Bgra2Rgba,
    Rgb2Gray,
    Bgr2Gray,
    Bgra2Gray,
    Rgba2Gray,
}

/// Which formats `rgb24_conversion` accepts.
pub open spec fn spec_rgb24_convertible(f: SubpixelOrder) -> bool {
    !(f is Abgr || f is Argb)
}

/// The conversion that turns a frame of format `f` into 24-bit RGB, or
/// nothing when it already is.
pub fn rgb24_conversion(f: SubpixelOrder) -> (r: Option<ColorConversion>)
    requires
        spec_rgb24_convertible(f),
    ensures
        r == match f {
            SubpixelOrder::Gray => Some(ColorConversion::Gray2Rgb),
            SubpixelOrder::Rgb => None::<ColorConversion>,
            SubpixelOrder::Bgr => Some(ColorConversion::Bgr2Rgb),
            SubpixelOrder::Bgra => Some(ColorConversion::Bgra2Rgb),
            _ => Some(ColorConversion::Rgba2Rgb),
        },
{
    match f {
        SubpixelOrder::Gray => Some(ColorConversion::Gray2Rgb),
        SubpixelOrder::Rgb => None,
        SubpixelOrder::Bgr => Some(ColorConversion::Bgr2Rgb),
        SubpixelOrder::Bgra => Some(ColorConversion::Bgra2Rgb),
        _ => Some(ColorConversion::Rgba2Rgb),
    }
}

/// The conversion that turns a frame of format `f` into 32-bit RGBA.
pub fn rgb32_conversion(f: SubpixelOrder) -> (r: Option<ColorConversion>)
    requires
        spec_rgb24_convertible(f),
    ensures
        r == match f {
            SubpixelOrder::Gray => Some(ColorConversion::Gray2Rgba),
            SubpixelOrder::Rgb => Some(ColorConversion::Rgb2Rgba),
            SubpixelOrder::Bgr => Some(ColorConversion::Bgr2Rgba),
            SubpixelOrder::Bgra => Some(ColorConversion::Bgra2Rgba),
            _ => None::<ColorConversion>,
        },
{
    match f {
        SubpixelOrder::Gray => Some(ColorConversion::Gray2Rgba),
        SubpixelOrder::Rgb => Some(ColorConversion::Rgb2Rgba),
        SubpixelOrder::Bgr => Some(ColorConversion::Bgr2Rgba),
        SubpixelOrder::Bgra => Some(ColorConversion::Bgra2Rgba),
        _ => None,
    }
}

/// The conversion that turns a frame of format `f` into grayscale.
pub fn gray_conversion(f: SubpixelOrder) -> (r: Option<ColorConversion>)
    requires
        spec_rgb24_convertible(f),
    ensures
        r == match f {
            SubpixelOrder::Gray => None::<ColorConversion>,
            SubpixelOrder::Rgb => Some(ColorConversion::Rgb2Gray),
            SubpixelOrder::Bgr => Some(ColorConversion::Bgr2Gray),
            SubpixelOrder::Bgra => Some(ColorConversion::Bgra2Gray),
            _ => Some(ColorConversion::Rgba2Gray),
        },
{
    match f {
        SubpixelOrder::Gray => None,
        SubpixelOrder::Rgb => Some(ColorConversion::Rgb2Gray),
        SubpixelOrder::Bgr => Some(ColorConversion::Bgr2Gray),
        SubpixelOrder::Bgra => Some(ColorConversion::Bgra2Gray),
        _ => Some(ColorConversion::Rgba2Gray),
    }
}

/// Whether the publisher's write index names a frame the reader has not
/// taken: a fresh slot is one that is neither the slot read last nor the
/// sentinel.
pub fn fresh_slot(w: u32, last_read_index: u32, image_buffer_count: u32) -> (r: bool)
    ensures
        r == (w != last_read_index && w != image_buffer_count),
{
    w != last_read_index && w != image_buffer_count
}

/// Whether the region's declared image size agrees with the frame geometry:
/// exactly width times height times the format's bytes per pixel.
pub fn frame_geometry_ok(imagesize: u32, width: u32, height: u32, format: SubpixelOrder) -> (r:
    bool)
    ensures
        r == (imagesize == width * height * format.spec_channels()),
{
    proof {
        assert((width as int) * (height as int) * (format.spec_channels() as int)
            < u128::MAX) by (nonlinear_arith)
            requires
                width <= u32::MAX,
                height <= u32::MAX,
                format.spec_channels() <= 4,
        ;
    }
    let expected: u128 = (width as u128) * (height as u128) * (format.channels() as u128);
    (imagesize as u128) == expected
}

/// The stream's fixed geometry: ring position tracking plus the byte offset
/// of the image ring, derived once at construction.
pub struct ImageStream {
    pub width: u32,
    pub height: u32,
    pub image_buffer_count: u32,
    /// The slot read last; starts at `image_buffer_count`, an impossible
    /// slot, as a sentinel.
    pub last_read_index: u32,
    pub image_size: u32,
    pub format: SubpixelOrder,
    pub shared_images_offset: usize,
}

impl<P: ShmPort> Monitor<P> {
    /// Derive the image ring's stream: the timestamps start where the
    /// host's video-store struct ends — the struct's base is the resolved
    /// offset of its size field, its extent the size the region itself
    /// declares — the ring follows the timestamps at the next 64-byte
    /// boundary, and the frame geometry must agree with the region's
    /// declared image size, as `frame_geometry_ok` fixes it.
    pub fn stream_images(&mut self, width: u32, height: u32, image_buffer_count: u32) -> (r:
        Result<ImageStream, ShmError>)
        requires
            old(self).wf(),
        ensures
            final(self).same_frame(old(self)),
            final(self).writes() == old(self).writes(),
            r is Ok ==> ({
                let st = r->Ok_0;
                &&& st.width == width
                &&& st.height == height
                &&& st.image_buffer_count == image_buffer_count
                &&& st.last_read_index == image_buffer_count
                &&& st.shared_images_offset % 64 == 0
                &&& st.shared_images_offset == crate::layout::spec_align_to(
                    spec_field_offset_of(
                        old(self).shm.layout,
                        "VideoStoreData::size".spec_bytes(),
                    ) + old(self).shm.videostore_size + image_buffer_count * 16,
                    64,
                )
                &&& st.image_size == width * height * st.format.spec_channels()
            }),
    {
        let state = match self.read() {
            Ok(s) => s,
            Err(e) => {
                return Err(e);
            },
        };
        let base = crate::shm::find_field_index(
            &self.shm.layout,
            "VideoStoreData::size".as_bytes(),
        ).unwrap();
        let videostore_offset = self.shm.layout.fields[base].offset;
        let timestamps_offset = match videostore_offset.checked_add(
            self.shm.videostore_size as usize,
        ) {
            Some(v) => v,
            None => {
                return Err(ShmError::Invalid);
            },
        };
        let timestamps_len = match (image_buffer_count as usize).checked_mul(16) {
            Some(v) => v,
            None => {
                return Err(ShmError::Invalid);
            },
        };
        let images_unaligned = match timestamps_offset.checked_add(timestamps_len) {
            Some(v) => v,
            None => {
                return Err(ShmError::Invalid);
            },
        };
        if images_unaligned > usize::MAX - 64 {
            return Err(ShmError::Invalid);
        }
        let shared_images_offset = crate::layout::align_to(images_unaligned, 64);
        proof {
            crate::layout::lemma_align_to_properties(images_unaligned as int, 64);
        }
        if !frame_geometry_ok(state.imagesize, width, height, state.format) {
            return Err(ShmError::Invalid);
        }
        Ok(
            ImageStream {
                width,
                height,
                image_buffer_count,
                last_read_index: image_buffer_count,
                image_size: state.imagesize,
                format: state.format,
                shared_images_offset,
            },
        )
    }
}

impl ImageStream {
    /// Try to take the newest unread frame. Nothing arrives while the
    /// publisher's write index still names the slot read last or the
    /// sentinel; the caller sleeps briefly and polls again — the stream is
    /// endless. Index monotonicity: every returned frame was read at a slot
    /// different from the previous one, and the sentinel slot is never the
    /// slot of a returned frame. Frames the publisher wrote in between are
    /// skipped on purpose.
    pub fn poll_image<P: ShmPort>(&mut self, monitor: &mut Monitor<P>) -> (r: Result<
        Option<Image>,
        ShmError,
    >)
        requires
            old(monitor).wf(),
        ensures
            final(monitor).same_frame(old(monitor)),
            final(monitor).writes() == old(monitor).writes(),
            final(self).width == old(self).width && final(self).height == old(self).height
                && final(self).image_buffer_count == old(self).image_buffer_count
                && final(self).image_size == old(self).image_size && final(self).format
                == old(self).format && final(self).shared_images_offset == old(
                self,
            ).shared_images_offset,
            r == Ok::<Option<Image>, ShmError>(None::<Image>) ==> *final(self) == *old(self),
            (r is Ok && r->Ok_0 is Some) ==> ({
                let img = r->Ok_0->Some_0;
                &&& final(self).last_read_index != old(self).last_read_index
                &&& final(self).last_read_index != final(self).image_buffer_count
                &&& img.data@.len() == final(self).image_size
                &&& img.width == final(self).width
                &&& img.height == final(self).height
                &&& img.format == final(self).format
            }),
    {
        let state = match monitor.read() {
            Ok(s) => s,
            Err(e) => {
                return Err(e);
            },
        };
        let w = #[verifier::truncate] (state.last_write_index as u32);
        if fresh_slot(w, self.last_read_index, self.image_buffer_count) {
            self.last_read_index = w;
            let span = match (self.image_size as u64).checked_mul(w as u64) {
                Some(v) => v,
                None => {
                    return Err(ShmError::Io);
                },
            };
            let offset64 = match (self.shared_images_offset as u64).checked_add(span) {
                Some(v) => v,
                None => {
                    return Err(ShmError::Io);
                },
            };
            if offset64 > usize::MAX as u64 {
                return Err(ShmError::Io);
            }
            let data = match monitor.shm.port.read_at(
                offset64 as usize,
                self.image_size as usize,
            ) {
                Ok(d) => d,
                Err(e) => {
                    return Err(e);
                },
            };
            Ok(Some(Image { data, width: self.width, height: self.height, format: self.format }))
        } else {
            Ok(None)
        }
    }

    /// Wait for the newest unread frame, polling every five milliseconds,
    /// for at most `max_polls` polls.
    pub fn next_image<P: ShmPort>(&mut self, monitor: &mut Monitor<P>, max_polls: u32) -> (r:
        Result<Option<Image>, ShmError>)
        requires
            old(monitor).wf(),
        ensures
            final(monitor).same_frame(old(monitor)),
            final(monitor).writes() == old(monitor).writes(),
            (r is Ok && r->Ok_0 is Some) ==> ({
                let img = r->Ok_0->Some_0;
                &&& final(self).last_read_index != old(self).last_read_index
                &&& final(self).last_read_index != final(self).image_buffer_count
                &&& img.data@.len() == final(self).image_size
            }),
    {
        let mut polls: u32 = 0;
        loop
            invariant
                monitor.wf(),
                monitor.same_frame(old(monitor)),
                monitor.writes() == old(monitor).writes(),
                *self == *old(self),
                polls <= max_polls,
            decreases max_polls - polls,
        {
            match self.poll_image(monitor) {
                Err(e) => {
                    return Err(e);
                },
                Ok(Some(img)) => {
                    return Ok(Some(img));
                },
                Ok(None) => {},
            }
            if polls == max_polls {
                return Ok(None);
            }
            polls = polls + 1;
            monitor.shm.port.sleep_ms(5);
        }
    }
}

} // verus!
