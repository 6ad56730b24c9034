use zinnia::sound::filter::{
    FadeDirection, Filter, FilterCollection, LeftRightFade, LinearFadeIn, LinearFadeOut,
};
use zinnia::sound::SCALE_ONE;

// A fade-in yields silence at tick zero and the unscaled value from the
// end of its ramp onward, for a fixed synthetic input.
#[test]
fn fade_in_boundaries() {
    let f = LinearFadeIn::new(10);
    assert_eq!(f.apply(1000, 0, 0), 0);
    assert_eq!(f.apply(1000, 5, 0), 500);
    assert_eq!(f.apply(1000, 10, 0), 1000);
    assert_eq!(f.apply(1000, 11, 0), 1000);
    assert_eq!(f.apply(1000, 5000, 0), 1000);
    assert_eq!(f.apply(-1000, 0, 0), 0);
    assert_eq!(f.apply(-1000, 5, 0), -500);
}

// A fade-out is the mirror: unscaled before its ramp, strictly falling
// across it, silent at its end tick.
#[test]
fn fade_out_boundaries_and_decrease() {
    let f = LinearFadeOut::new(10, 20);
    assert_eq!(f.apply(1000, 0, 0), 1000);
    assert_eq!(f.apply(1000, 9, 0), 1000);
    assert_eq!(f.apply(1000, 10, 0), 1000);
    let mut prev = 1001;
    for tick in 10..=20 {
        let v = f.apply(1000, tick, 0);
        assert!(v < prev, "tick {tick}: {v} not below {prev}");
        prev = v;
    }
    assert_eq!(f.apply(1000, 20, 0), 0);
    assert_eq!(f.apply(1000, 21, 0), 1000);
}

// The stereo pan ramps the two channels in mirrored directions and leaves
// other channels untouched.
#[test]
fn pan_ramps_are_mirrored() {
    let f = LeftRightFade::new(0, SCALE_ONE, FadeDirection::RightLeft, 10);
    assert_eq!(f.apply(1000, 0, 0), 0);
    assert_eq!(f.apply(1000, 0, 1), 1000);
    assert_eq!(f.apply(1000, 5, 0), 500);
    assert_eq!(f.apply(1000, 5, 1), 500);
    assert_eq!(f.apply(1000, 10, 0), 1000);
    assert_eq!(f.apply(1000, 10, 1), 0);
    // Past the ramp the gains hold their final values.
    assert_eq!(f.apply(1000, 99, 0), 1000);
    assert_eq!(f.apply(1000, 99, 1), 0);
    // Channels beyond the stereo pair pass through.
    assert_eq!(f.apply(1000, 3, 2), 1000);

    let g = LeftRightFade::new(0, SCALE_ONE, FadeDirection::LeftRight, 10);
    assert_eq!(g.apply(1000, 0, 0), 1000);
    assert_eq!(g.apply(1000, 0, 1), 0);
    assert_eq!(g.apply(1000, 10, 0), 0);
    assert_eq!(g.apply(1000, 10, 1), 1000);
}

#[test]
fn pan_clamps_and_orders_its_scale_bounds() {
    // Negative and oversized factors are clamped; swapped bounds are
    // reordered, so the gain stays within the unit range either way.
    let f = LeftRightFade::new(-40000, 40000, FadeDirection::RightLeft, 4);
    assert_eq!(f.low, SCALE_ONE);
    assert_eq!(f.high, SCALE_ONE);
    let g = LeftRightFade::new(SCALE_ONE, 0, FadeDirection::RightLeft, 4);
    assert_eq!(g.low, 0);
    assert_eq!(g.high, SCALE_ONE);
}

// Filters apply in insertion order, each consuming the previous output.
#[test]
fn chain_applies_in_insertion_order() {
    let mut chain = FilterCollection::new();
    assert_eq!(chain.apply(1234, 7, 0), 1234);
    chain.add_filter(Filter::FadeIn(LinearFadeIn::new(10)));
    chain.add_filter(Filter::FadeOut(LinearFadeOut::new(10, 10)));
    // At tick 5 the fade-in halves the value, then the fade-out halves
    // the halved value again.
    assert_eq!(chain.apply(1000, 5, 0), 250);
    // At tick 0 the fade-in already silences everything.
    assert_eq!(chain.apply(1000, 0, 0), 0);
}
