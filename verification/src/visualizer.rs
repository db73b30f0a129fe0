//! Visualizer modes: their order, labels and persisted names.
use vstd::prelude::*;

use crate::text::chars_eq_str;

verus! {

broadcast use vstd::string::group_string_axioms;

/// The visualizer styles, in the order `v` cycles through them. The `v`
/// cycle passes over `Waterfall`, which is chosen only by name (from the
/// settings); from it, `v` goes on to `Lissajous`.
#[derive(Copy, Clone, Debug, Eq, PartialEq, Structural)]
pub enum VisMode {
    Spectrum,
    MirrorBars,
    Radial,
    Waveform,
    ScrollingWaveform,
    Spectrogram,
    Waterfall,
    Lissajous,
    Vu,
    Spectrum3D,
    Plasma,
    Cassette,
}

impl VisMode {
    pub open spec fn label_spec(self) -> Seq<char> {
        match self {
            VisMode::Spectrum => "FFT Bars"@,
            VisMode::MirrorBars => "Mirror Bars"@,
            VisMode::Radial => "Radial"@,
            VisMode::Waveform => "Waveform"@,
            VisMode::ScrollingWaveform => "Scrolling Wave"@,
            VisMode::Spectrogram => "Spectrogram"@,
            VisMode::Waterfall => "Waterfall"@,
            VisMode::Lissajous => "Stereo X/Y"@,
            VisMode::Vu => "VU Meters"@,
            VisMode::Spectrum3D => "Spectrum 3D"@,
            VisMode::Plasma => "Plasma"@,
            VisMode::Cassette => "Cassette Tape"@,
        }
    }

    pub open spec fn name_spec(self) -> Seq<char> {
        match self {
            VisMode::Spectrum => "spectrum"@,
            VisMode::MirrorBars => "spectrum-mirror"@,
            VisMode::Radial => "radial"@,
            VisMode::Waveform => "waveform"@,
            VisMode::ScrollingWaveform => "scrolling-wave"@,
            VisMode::Spectrogram => "spectrogram"@,
            VisMode::Waterfall => "waterfall"@,
            VisMode::Lissajous => "lissajous"@,
            VisMode::Vu => "vu"@,
            VisMode::Spectrum3D => "spectrum-3d"@,
            VisMode::Plasma => "plasma"@,
            VisMode::Cassette => "cassette"@,
        }
    }

    pub open spec fn next_spec(self) -> VisMode {
        match self {
            VisMode::Spectrum => VisMode::MirrorBars,
            VisMode::MirrorBars => VisMode::Radial,
            VisMode::Radial => VisMode::Waveform,
            VisMode::Waveform => VisMode::ScrollingWaveform,
            VisMode::ScrollingWaveform => VisMode::Spectrogram,
            VisMode::Spectrogram => VisMode::Lissajous,
            VisMode::Waterfall => VisMode::Lissajous,
            VisMode::Lissajous => VisMode::Vu,
            VisMode::Vu => VisMode::Spectrum3D,
            VisMode::Spectrum3D => VisMode::Plasma,
            VisMode::Plasma => VisMode::Cassette,
            VisMode::Cassette => VisMode::Spectrum,
        }
    }

    pub open spec fn prev_spec(self) -> VisMode {
        match self {
            VisMode::Spectrum => VisMode::Cassette,
            VisMode::MirrorBars => VisMode::Spectrum,
            VisMode::Radial => VisMode::MirrorBars,
            VisMode::Waveform => VisMode::Radial,
            VisMode::ScrollingWaveform => VisMode::Waveform,
            VisMode::Spectrogram => VisMode::ScrollingWaveform,
            VisMode::Waterfall => VisMode::Spectrogram,
            VisMode::Lissajous => VisMode::Spectrogram,
            VisMode::Vu => VisMode::Lissajous,
            VisMode::Spectrum3D => VisMode::Vu,
            VisMode::Plasma => VisMode::Spectrum3D,
            VisMode::Cassette => VisMode::Plasma,
        }
    }

    /// The human label shown in the status line and menu.
    pub fn label(&self) -> (r: &'static str)
        ensures
            r@ == self.label_spec(),
    {
        match self {
            VisMode::Spectrum => "FFT Bars",
            VisMode::MirrorBars => "Mirror Bars",
            VisMode::Radial => "Radial",
            VisMode::Waveform => "Waveform",
            VisMode::ScrollingWaveform => "Scrolling Wave",
            VisMode::Spectrogram => "Spectrogram",
            VisMode::Waterfall => "Waterfall",
            VisMode::Lissajous => "Stereo X/Y",
            VisMode::Vu => "VU Meters",
            VisMode::Spectrum3D => "Spectrum 3D",
            VisMode::Plasma => "Plasma",
            VisMode::Cassette => "Cassette Tape",
        }
    }

    /// The next mode in cycling order (wrapping around).
    pub fn cycle(self) -> (r: Self)
        ensures
            r == self.next_spec(),
    {
        match self {
            VisMode::Spectrum => VisMode::MirrorBars,
            VisMode::MirrorBars => VisMode::Radial,
            VisMode::Radial => VisMode::Waveform,
            VisMode::Waveform => VisMode::ScrollingWaveform,
            VisMode::ScrollingWaveform => VisMode::Spectrogram,
            VisMode::Spectrogram => VisMode::Lissajous,
            VisMode::Waterfall => VisMode::Lissajous,
            VisMode::Lissajous => VisMode::Vu,
            VisMode::Vu => VisMode::Spectrum3D,
            VisMode::Spectrum3D => VisMode::Plasma,
            VisMode::Plasma => VisMode::Cassette,
            VisMode::Cassette => VisMode::Spectrum,
        }
    }

    /// The previous mode in cycling order (wrapping around).
    pub fn cycle_back(self) -> (r: Self)
        ensures
            r == self.prev_spec(),
    {
        match self {
            VisMode::Spectrum => VisMode::Cassette,
            VisMode::MirrorBars => VisMode::Spectrum,
            VisMode::Radial => VisMode::MirrorBars,
            VisMode::Waveform => VisMode::Radial,
            VisMode::ScrollingWaveform => VisMode::Waveform,
            VisMode::Spectrogram => VisMode::ScrollingWaveform,
            VisMode::Waterfall => VisMode::Spectrogram,
            VisMode::Lissajous => VisMode::Spectrogram,
            VisMode::Vu => VisMode::Lissajous,
            VisMode::Spectrum3D => VisMode::Vu,
            VisMode::Plasma => VisMode::Spectrum3D,
            VisMode::Cassette => VisMode::Plasma,
        }
    }

    /// Stable identifier used in the persisted config file.
    pub fn name(&self) -> (r: &'static str)
        ensures
            r@ == self.name_spec(),
    {
        match self {
            VisMode::Spectrum => "spectrum",
            VisMode::MirrorBars => "spectrum-mirror",
            VisMode::Radial => "radial",
            VisMode::Waveform => "waveform",
            VisMode::ScrollingWaveform => "scrolling-wave",
            VisMode::Spectrogram => "spectrogram",
            VisMode::Waterfall => "waterfall",
            VisMode::Lissajous => "lissajous",
            VisMode::Vu => "vu",
            VisMode::Spectrum3D => "spectrum-3d",
            VisMode::Plasma => "plasma",
            VisMode::Cassette => "cassette",
        }
    }

    /// The mode with the given persisted identifier, if any.
    pub open spec fn from_name_spec(s: Seq<char>) -> Option<VisMode> {
        if s == "spectrum"@ {
            Some(VisMode::Spectrum)
        } else if s == "spectrum-mirror"@ {
            Some(VisMode::MirrorBars)
        } else if s == "radial"@ {
            Some(VisMode::Radial)
        } else if s == "waveform"@ {
            Some(VisMode::Waveform)
        } else if s == "scrolling-wave"@ {
            Some(VisMode::ScrollingWaveform)
        } else if s == "spectrogram"@ {
            Some(VisMode::Spectrogram)
        } else if s == "waterfall"@ {
            Some(VisMode::Waterfall)
        } else if s == "lissajous"@ {
            Some(VisMode::Lissajous)
        } else if s == "vu"@ {
            Some(VisMode::Vu)
        } else if s == "spectrum-3d"@ {
            Some(VisMode::Spectrum3D)
        } else if s == "plasma"@ {
            Some(VisMode::Plasma)
        } else if s == "cassette"@ {
            Some(VisMode::Cassette)
        } else {
            None
        }
    }

    pub fn from_name(s: &str) -> (r: Option<Self>)
        ensures
            r == Self::from_name_spec(s@),
    {
        let v = crate::text::to_chars(s);
        if chars_eq_str(v.as_slice(), "spectrum") {
            Some(VisMode::Spectrum)
        } else if chars_eq_str(v.as_slice(), "spectrum-mirror") {
            Some(VisMode::MirrorBars)
        } else if chars_eq_str(v.as_slice(), "radial") {
            Some(VisMode::Radial)
        } else if chars_eq_str(v.as_slice(), "waveform") {
            Some(VisMode::Waveform)
        } else if chars_eq_str(v.as_slice(), "scrolling-wave") {
            Some(VisMode::ScrollingWaveform)
        } else if chars_eq_str(v.as_slice(), "spectrogram") {
            Some(VisMode::Spectrogram)
        } else if chars_eq_str(v.as_slice(), "waterfall") {
            Some(VisMode::Waterfall)
        } else if chars_eq_str(v.as_slice(), "lissajous") {
            Some(VisMode::Lissajous)
        } else if chars_eq_str(v.as_slice(), "vu") {
            Some(VisMode::Vu)
        } else if chars_eq_str(v.as_slice(), "spectrum-3d") {
            Some(VisMode::Spectrum3D)
        } else if chars_eq_str(v.as_slice(), "plasma") {
            Some(VisMode::Plasma)
        } else if chars_eq_str(v.as_slice(), "cassette") {
            Some(VisMode::Cassette)
        } else {
            None
        }
    }
}

/// On the eleven modes of the `v` cycle, stepping back undoes stepping
/// forward, and the reverse; cycling never lands on `Waterfall`, and eleven
/// steps from any mode of the cycle come back to it.
pub proof fn lemma_cycle_back_inverse(m: VisMode)
    ensures
        m != VisMode::Waterfall ==> m.next_spec().prev_spec() == m,
        m != VisMode::Waterfall ==> m.prev_spec().next_spec() == m,
        m.next_spec() != VisMode::Waterfall,
        m.prev_spec() != VisMode::Waterfall,
        m != VisMode::Waterfall ==> m.next_spec().next_spec().next_spec().next_spec().next_spec().next_spec().next_spec().next_spec().next_spec().next_spec().next_spec()
            == m,
{
}

/// Reading back a mode's persisted name gives the mode.
pub proof fn lemma_from_name_round_trip(m: VisMode)
    ensures
        VisMode::from_name_spec(m.name_spec()) == Some(m),
{
    reveal_strlit("spectrum");
    reveal_strlit("spectrum-mirror");
    reveal_strlit("radial");
    reveal_strlit("waveform");
    reveal_strlit("scrolling-wave");
    reveal_strlit("spectrogram");
    reveal_strlit("waterfall");
    reveal_strlit("lissajous");
    reveal_strlit("vu");
    reveal_strlit("spectrum-3d");
    reveal_strlit("plasma");
    reveal_strlit("cassette");
    match m {
        VisMode::Spectrum => {
        },
        VisMode::MirrorBars => {
            assert("spectrum-mirror"@.len() != "spectrum"@.len());
        },
        VisMode::Radial => {
            assert("radial"@.len() != "spectrum"@.len());
            assert("radial"@.len() != "spectrum-mirror"@.len());
        },
        VisMode::Waveform => {
            assert("waveform"@[0] != "spectrum"@[0]);
            assert("waveform"@.len() != "spectrum-mirror"@.len());
            assert("waveform"@.len() != "radial"@.len());
        },
        VisMode::ScrollingWaveform => {
            assert("scrolling-wave"@.len() != "spectrum"@.len());
            assert("scrolling-wave"@.len() != "spectrum-mirror"@.len());
            assert("scrolling-wave"@.len() != "radial"@.len());
            assert("scrolling-wave"@.len() != "waveform"@.len());
        },
        VisMode::Spectrogram => {
            assert("spectrogram"@.len() != "spectrum"@.len());
            assert("spectrogram"@.len() != "spectrum-mirror"@.len());
            assert("spectrogram"@.len() != "radial"@.len());
            assert("spectrogram"@.len() != "waveform"@.len());
            assert("spectrogram"@.len() != "scrolling-wave"@.len());
        },
        VisMode::Waterfall => {
            assert("waterfall"@.len() != "spectrum"@.len());
            assert("waterfall"@.len() != "spectrum-mirror"@.len());
            assert("waterfall"@.len() != "radial"@.len());
            assert("waterfall"@.len() != "waveform"@.len());
            assert("waterfall"@.len() != "scrolling-wave"@.len());
            assert("waterfall"@.len() != "spectrogram"@.len());
        },
        VisMode::Lissajous => {
            assert("lissajous"@.len() != "spectrum"@.len());
            assert("lissajous"@.len() != "spectrum-mirror"@.len());
            assert("lissajous"@.len() != "radial"@.len());
            assert("lissajous"@.len() != "waveform"@.len());
            assert("lissajous"@.len() != "scrolling-wave"@.len());
            assert("lissajous"@.len() != "spectrogram"@.len());
            assert("lissajous"@[0] != "waterfall"@[0]);
        },
        VisMode::Vu => {
            assert("vu"@.len() != "spectrum"@.len());
            assert("vu"@.len() != "spectrum-mirror"@.len());
            assert("vu"@.len() != "radial"@.len());
            assert("vu"@.len() != "waveform"@.len());
            assert("vu"@.len() != "scrolling-wave"@.len());
            assert("vu"@.len() != "spectrogram"@.len());
            assert("vu"@.len() != "waterfall"@.len());
            assert("vu"@.len() != "lissajous"@.len());
        },
        VisMode::Spectrum3D => {
            assert("spectrum-3d"@.len() != "spectrum"@.len());
            assert("spectrum-3d"@.len() != "spectrum-mirror"@.len());
            assert("spectrum-3d"@.len() != "radial"@.len());
            assert("spectrum-3d"@.len() != "waveform"@.len());
            assert("spectrum-3d"@.len() != "scrolling-wave"@.len());
            assert("spectrum-3d"@[6] != "spectrogram"@[6]);
            assert("spectrum-3d"@.len() != "waterfall"@.len());
            assert("spectrum-3d"@.len() != "lissajous"@.len());
            assert("spectrum-3d"@.len() != "vu"@.len());
        },
        VisMode::Plasma => {
            assert("plasma"@.len() != "spectrum"@.len());
            assert("plasma"@.len() != "spectrum-mirror"@.len());
            assert("plasma"@[0] != "radial"@[0]);
            assert("plasma"@.len() != "waveform"@.len());
            assert("plasma"@.len() != "scrolling-wave"@.len());
            assert("plasma"@.len() != "spectrogram"@.len());
            assert("plasma"@.len() != "waterfall"@.len());
            assert("plasma"@.len() != "lissajous"@.len());
            assert("plasma"@.len() != "vu"@.len());
            assert("plasma"@.len() != "spectrum-3d"@.len());
        },
        VisMode::Cassette => {
            assert("cassette"@[0] != "spectrum"@[0]);
            assert("cassette"@.len() != "spectrum-mirror"@.len());
            assert("cassette"@.len() != "radial"@.len());
            assert("cassette"@[0] != "waveform"@[0]);
            assert("cassette"@.len() != "scrolling-wave"@.len());
            assert("cassette"@.len() != "spectrogram"@.len());
            assert("cassette"@.len() != "waterfall"@.len());
            assert("cassette"@.len() != "lissajous"@.len());
            assert("cassette"@.len() != "vu"@.len());
            assert("cassette"@.len() != "spectrum-3d"@.len());
            assert("cassette"@.len() != "plasma"@.len());
        },
    }
}

} // verus!
