//! Codecs and their parameters in the ITU-T G.107 E-model.
//!
//! A MOS score without its codec is meaningless: the same path scores very
//! differently for G.711 and G.729. The codec is therefore a required input and
//! is recorded alongside every score.

use vstd::prelude::*;

use crate::text::{same, to_ascii_lowercase};

verus! {

/// Codec-specific E-model parameters.
///
/// Values are the G.113 Appendix I provisional figures.
#[derive(Debug, Clone, Copy, PartialEq, Eq, Structural)]
pub enum Codec {
    /// G.711 A-law/µ-law, 64 kbit/s. The reference codec: no compression
    /// impairment, but least tolerant of loss.
    G711,
    /// G.711 with packet loss concealment.
    G711Plc,
    /// G.729A, 8 kbit/s.
    G729,
    /// G.722.2 / AMR-WB wideband.
    G722,
    /// Opus at wideband settings.
    Opus,
}

/// The codec that `s` names, whatever its case.
pub open spec fn codec_named(s: Seq<char>) -> Option<Codec> {
    let w = crate::text::lowered(s);
    if w == "g711"@ {
        Some(Codec::G711)
    } else if w == "g711plc"@ {
        Some(Codec::G711Plc)
    } else if w == "g729"@ {
        Some(Codec::G729)
    } else if w == "g722"@ {
        Some(Codec::G722)
    } else if w == "opus"@ {
        Some(Codec::Opus)
    } else {
        None
    }
}

/// Equipment impairment at zero loss and packet-loss robustness, in tenths.
pub open spec fn params_of(c: Codec) -> (u32, u32) {
    match c {
        Codec::G711 => (0u32, 43u32),
        Codec::G711Plc => (0u32, 251u32),
        Codec::G729 => (110u32, 190u32),
        Codec::G722 => (80u32, 180u32),
        Codec::Opus => (70u32, 220u32),
    }
}

/// The top of a codec's scale, in tenths.
pub open spec fn top_of(c: Codec) -> u32 {
    if c is G722 || c is Opus {
        1290
    } else {
        932
    }
}

impl Codec {
    pub fn parse(s: &str) -> (r: Option<Codec>)
        ensures
            r == codec_named(s@),
    {
        let w = to_ascii_lowercase(s);
        let w = w.as_str();
        if same(w, "g711") {
            Some(Codec::G711)
        } else if same(w, "g711plc") {
            Some(Codec::G711Plc)
        } else if same(w, "g729") {
            Some(Codec::G729)
        } else if same(w, "g722") {
            Some(Codec::G722)
        } else if same(w, "opus") {
            Some(Codec::Opus)
        } else {
            None
        }
    }

    /// Equipment impairment at zero loss and packet-loss robustness, in tenths.
    /// A higher robustness means the codec degrades more gracefully.
    pub fn params_tenths(self) -> (r: (u32, u32))
        ensures
            r == (match self {
                Codec::G711 => (0u32, 43u32),
                Codec::G711Plc => (0u32, 251u32),
                Codec::G729 => (110u32, 190u32),
                Codec::G722 => (80u32, 180u32),
                Codec::Opus => (70u32, 220u32),
            }),
            r == params_of(self),
    {
        match self {
            Codec::G711 => (0, 43),
            Codec::G711Plc => (0, 251),
            Codec::G729 => (110, 190),
            Codec::G722 => (80, 180),
            Codec::Opus => (70, 220),
        }
    }

    /// Base (and maximum) transmission rating for this codec's scale, in
    /// tenths.
    ///
    /// Narrowband G.107 tops out at 93.2; the wideband E-model of G.107.1
    /// widens the scale to 129. This is both the starting value of `R0` and the
    /// clamp ceiling: a codec must be scored entirely on one scale or the
    /// other, never with one scale's base and the other's ceiling.
    pub fn r_max_tenths(self) -> (r: u32)
        ensures
            r == (if self is G722 || self is Opus {
                1290u32
            } else {
                932u32
            }),
            r == top_of(self),
    {
        match self {
            Codec::G722 => 1290,
            Codec::Opus => 1290,
            _ => 932,
        }
    }

    pub fn is_wideband(self) -> (r: bool)
        ensures
            r == (self is G722 || self is Opus),
    {
        match self {
            Codec::G722 => true,
            Codec::Opus => true,
            _ => false,
        }
    }
}

/// The parameters of the codecs: without loss G.711 is not impaired and G.729 is
/// impaired most; concealment makes G.711 the most robust of all, and without it
/// it is the least. Codecs for wide bands are scored on the wider scale.
pub proof fn law_codec_parameters(c: Codec)
    ensures
        params_of(Codec::G711) == (0u32, 43u32),
        params_of(Codec::G711Plc) == (0u32, 251u32),
        params_of(Codec::G729) == (110u32, 190u32),
        params_of(Codec::G722) == (80u32, 180u32),
        params_of(Codec::Opus) == (70u32, 220u32),
        params_of(Codec::G711).1 <= params_of(c).1 <= params_of(Codec::G711Plc).1,
        params_of(Codec::G711).0 <= params_of(c).0 <= params_of(Codec::G729).0,
        top_of(c) == 1290 <==> c == Codec::G722 || c == Codec::Opus,
        top_of(c) == 932 <==> c == Codec::G711 || c == Codec::G711Plc || c == Codec::G729,
{
}

} // verus!
