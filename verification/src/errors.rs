//! The failures a translation run can end in.
//!
//! A run either parses and translates completely or fails with one of
//! these values; there is no partial output.

use vstd::prelude::*;

use crate::text::{dec_chars, dec_string};

verus! {

/// The configuration text does not match any entry form at `pos`
/// (a character position counted from the start of the input).
#[derive(Debug, PartialEq, Eq, Clone, Copy)]
pub struct ParseError {
    pub pos: usize,
}

/// A recognized directive carries data outside its translation table, or a
/// numeric precondition fails.
#[derive(Debug, PartialEq)]
pub enum UbootError {
    /// A `dtparam` key is recognized but its value is not in the key's table.
    UnsupportedParamValue { key: String, value: String },
    /// A `dtparam` key is not in the translation table.
    UnsupportedParamKey { key: String },
    /// The value of `i2c_arm_baudrate` does not read as a 32-bit number.
    InvalidBaudrate { value: String },
    /// An overlay other than `dwc2` carries extra parameters.
    UnsupportedOverlayParams { overlay: String },
    /// A memory split without a declared total memory size.
    MissingTotalRamsize,
    /// A memory split whose GPU share exceeds the total size.
    GpuExceedsTotal,
    /// A memory split re-homed to a model outside both template groups.
    UnsupportedModel { model: String },
    /// A memory split that was never re-homed to a model.
    MissingModel,
    /// A memory size in MiB too large to express in bytes.
    SizeOverflow,
}

pub ghost enum UbootErrorV {
    UnsupportedParamValue { key: Seq<char>, value: Seq<char> },
    UnsupportedParamKey { key: Seq<char> },
    InvalidBaudrate { value: Seq<char> },
    UnsupportedOverlayParams { overlay: Seq<char> },
    MissingTotalRamsize,
    GpuExceedsTotal,
    UnsupportedModel { model: Seq<char> },
    MissingModel,
    SizeOverflow,
}

impl View for UbootError {
    type V = UbootErrorV;

    open spec fn view(&self) -> UbootErrorV {
        match self {
            UbootError::UnsupportedParamValue { key, value } => {
                UbootErrorV::UnsupportedParamValue { key: key@, value: value@ }
            },
            UbootError::UnsupportedParamKey { key } => {
                UbootErrorV::UnsupportedParamKey { key: key@ }
            },
            UbootError::InvalidBaudrate { value } => UbootErrorV::InvalidBaudrate { value: value@ },
            UbootError::UnsupportedOverlayParams { overlay } => {
                UbootErrorV::UnsupportedOverlayParams { overlay: overlay@ }
            },
            UbootError::MissingTotalRamsize => UbootErrorV::MissingTotalRamsize,
            UbootError::GpuExceedsTotal => UbootErrorV::GpuExceedsTotal,
            UbootError::UnsupportedModel { model } => UbootErrorV::UnsupportedModel {
                model: model@,
            },
            UbootError::MissingModel => UbootErrorV::MissingModel,
            UbootError::SizeOverflow => UbootErrorV::SizeOverflow,
        }
    }
}

/// The description `message` renders.
pub open spec fn spec_message(e: UbootErrorV) -> Seq<char> {
    match e {
        UbootErrorV::UnsupportedParamValue { key, value } => {
            "Unsupported dtparam option: "@ + key + "="@ + value
        },
        UbootErrorV::UnsupportedParamKey { key } => "Unsupported dtparam key: "@ + key,
        UbootErrorV::InvalidBaudrate { value } => "Invalid i2c clock-frequency: "@ + value,
        UbootErrorV::UnsupportedOverlayParams { overlay } => {
            "Unsupported overlay parameters: "@ + overlay
        },
        UbootErrorV::MissingTotalRamsize => "Unsupported total_ramsize"@,
        UbootErrorV::GpuExceedsTotal => "gpu_ramsize must be smaller than total_ramsize"@,
        UbootErrorV::UnsupportedModel { model } => {
            "Unsupported platform: "@ + model + ", command: gpu_mem"@
        },
        UbootErrorV::MissingModel => "gpu_mem.model is None"@,
        UbootErrorV::SizeOverflow => "Memory size too large"@,
    }
}

impl UbootError {
    /// A one-line description of the failure.
    pub fn message(&self) -> (r: String)
        ensures
            r@ == spec_message(self@),
    {
        match self {
            UbootError::UnsupportedParamValue { key, value } => {
                let mut s = "Unsupported dtparam option: ".to_owned();
                s.append(key.as_str());
                s.append("=");
                s.append(value.as_str());
                s
            },
            UbootError::UnsupportedParamKey { key } => {
                let mut s = "Unsupported dtparam key: ".to_owned();
                s.append(key.as_str());
                s
            },
            UbootError::InvalidBaudrate { value } => {
                let mut s = "Invalid i2c clock-frequency: ".to_owned();
                s.append(value.as_str());
                s
            },
            UbootError::UnsupportedOverlayParams { overlay } => {
                let mut s = "Unsupported overlay parameters: ".to_owned();
                s.append(overlay.as_str());
                s
            },
            UbootError::MissingTotalRamsize => "Unsupported total_ramsize".to_owned(),
            UbootError::GpuExceedsTotal => {
                "gpu_ramsize must be smaller than total_ramsize".to_owned()
            },
            UbootError::UnsupportedModel { model } => {
                let mut s = "Unsupported platform: ".to_owned();
                s.append(model.as_str());
                s.append(", command: gpu_mem");
                s
            },
            UbootError::MissingModel => "gpu_mem.model is None".to_owned(),
            UbootError::SizeOverflow => "Memory size too large".to_owned(),
        }
    }
}

impl ParseError {
    /// A one-line description of the failure.
    pub fn message(&self) -> (r: String)
        ensures
            r@ == "Failed to parse config.txt at position "@ + dec_chars(self.pos as int),
    {
        let mut s = "Failed to parse config.txt at position ".to_owned();
        s.append(dec_string(self.pos).as_str());
        s
    }
}

} // verus!
