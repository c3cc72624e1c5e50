//! The fixed table of frequency bands.

use vstd::prelude::*;

verus! {

/// A contiguous frequency interval with a short display label.
///
/// `high_hz` is `None` for the open-ended top band, which covers everything
/// from `low_hz` up to the Nyquist frequency of whatever transform is used.
pub struct Band {
    pub label: &'static str,
    pub low_hz: u32,
    pub high_hz: Option<u32>,
}

impl Band {
    /// A band is well formed when its range is not inverted.
    pub open spec fn wf(self) -> bool {
        match self.high_hz {
            Some(h) => self.low_hz <= h,
            None => true,
        }
    }
}

/// The fixed band table: 14 contiguous bands covering all of `[0, +oo)` Hz.
pub open spec fn spec_bands() -> Seq<Band> {
    seq![
        Band { label: "DC", low_hz: 0, high_hz: Some(20) },
        Band { label: "SUB1", low_hz: 20, high_hz: Some(40) },
        Band { label: "SUB2", low_hz: 40, high_hz: Some(60) },
        Band { label: "BASS", low_hz: 60, high_hz: Some(120) },
        Band { label: "UBAS", low_hz: 120, high_hz: Some(250) },
        Band { label: "LMID", low_hz: 250, high_hz: Some(500) },
        Band { label: "MID", low_hz: 500, high_hz: Some(1000) },
        Band { label: "UMID", low_hz: 1000, high_hz: Some(2000) },
        Band { label: "HMID", low_hz: 2000, high_hz: Some(4000) },
        Band { label: "PRES", low_hz: 4000, high_hz: Some(6000) },
        Band { label: "BRIL", low_hz: 6000, high_hz: Some(10000) },
        Band { label: "HIGH", low_hz: 10000, high_hz: Some(14000) },
        Band { label: "UHIG", low_hz: 14000, high_hz: Some(18000) },
        Band { label: "AIR", low_hz: 18000, high_hz: None },
    ]
}

/// The band table is ordered, contiguous, starts at 0 Hz and is open at the
/// top: together the bands cover every frequency exactly once.
pub proof fn lemma_bands_wf()
    ensures
        spec_bands().len() == 14,
        spec_bands()[0].low_hz == 0,
        spec_bands()[13].high_hz is None,
        forall|i: int| 0 <= i < 14 ==> #[trigger] spec_bands()[i].wf(),
        forall|i: int|
            0 <= i < 13 ==> #[trigger] spec_bands()[i].high_hz == Some(spec_bands()[i + 1].low_hz),
        forall|i: int| 0 <= i < 13 ==> spec_bands()[i].low_hz < #[trigger] spec_bands()[i + 1].low_hz,
{
}

/// Returns the band table, always the same 14 bands.
pub fn get_bands() -> (r: Vec<Band>)
    ensures
        r@ == spec_bands(),
{
    let mut v: Vec<Band> = Vec::new();
    v.push(Band { label: "DC", low_hz: 0, high_hz: Some(20) });
    v.push(Band { label: "SUB1", low_hz: 20, high_hz: Some(40) });
    v.push(Band { label: "SUB2", low_hz: 40, high_hz: Some(60) });
    v.push(Band { label: "BASS", low_hz: 60, high_hz: Some(120) });
    v.push(Band { label: "UBAS", low_hz: 120, high_hz: Some(250) });
    v.push(Band { label: "LMID", low_hz: 250, high_hz: Some(500) });
    v.push(Band { label: "MID", low_hz: 500, high_hz: Some(1000) });
    v.push(Band { label: "UMID", low_hz: 1000, high_hz: Some(2000) });
    v.push(Band { label: "HMID", low_hz: 2000, high_hz: Some(4000) });
    v.push(Band { label: "PRES", low_hz: 4000, high_hz: Some(6000) });
    v.push(Band { label: "BRIL", low_hz: 6000, high_hz: Some(10000) });
    v.push(Band { label: "HIGH", low_hz: 10000, high_hz: Some(14000) });
    v.push(Band { label: "UHIG", low_hz: 14000, high_hz: Some(18000) });
    v.push(Band { label: "AIR", low_hz: 18000, high_hz: None });
    assert(v@ =~= spec_bands());
    v
}

} // verus!
