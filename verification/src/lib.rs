//! Core runtime of a real-time frame streaming pipeline.
//!
//! Frames travel as [`frame_data::FrameData`] envelopes through staged
//! pipelines ([`pipeline`]) of processors ([`processors`]), drawing their
//! byte buffers from bounded pools ([`buffer_pool`]). Encoded frames cross
//! an unreliable datagram transport through the RemVSP fragmentation
//! protocol ([`remvsp`]); frames whose end-to-end delay exceeds the budget
//! are dropped rather than shown late.

pub mod assoc;
pub mod bgr2yuv;
pub mod buffer_pool;
pub mod bufops;
pub mod bytes_le;
pub mod codecs;
pub mod error;
pub mod feedback;
pub mod frame_data;
pub mod h264;
pub mod pipeline;
pub mod processors;
pub mod profiling;
pub mod rand_util;
pub mod receive;
pub mod remvsp;
pub mod stats_logger;
pub mod time_util;
