//! Spinner animations.

use vstd::prelude::*;

verus! {

/// An event-driven terminal spinner.
#[derive(Debug)]
pub struct Spinner {
    frame: usize,
    frames: Vec<&'static str>,
}

/// What a spinner holds: its frames, and the index of the next one.
pub ghost struct SpinnerView {
    pub frame: int,
    pub frames: Seq<&'static str>,
}

impl View for Spinner {
    type V = SpinnerView;

    closed spec fn view(&self) -> SpinnerView {
        SpinnerView { frame: self.frame as int, frames: self.frames@ }
    }
}

impl Spinner {
    /// The frames for a braille spinner: `⠋⠙⠹⠸⠼⠴⠦⠧⠇⠏`.
    pub const BRAILLE_SPIN: [&'static str; 10] = [
        "⠋",
        "⠙",
        "⠹",
        "⠸",
        "⠼",
        "⠴",
        "⠦",
        "⠧",
        "⠇",
        "⠏",
    ];

    /// The frames for an animated ellipsis.
    pub const ELLIPSIS: [&'static str; 4] = [".  ", ".. ", "...", "   "];

    /// The frames for center dots that get bigger.
    pub const CENTER_DOTS: [&'static str; 5] = ["∙∙∙", "●∙∙", "∙●∙", "∙∙●", "∙∙∙"];

    /// The frames for a ballon spinner animation: `.oO°Oo.`.
    pub const BALLON: [&'static str; 7] = [".", "o", "O", "°", "O", "o", "."];

    /// The frames for a spinning half circle.
    pub const HALVES: [&'static str; 4] = ["◐", "◓", "◑", "◒"];

    /// A small orbital animation.
    pub const ORBIT: [&'static str; 4] = ["◜", "◝", "◞", "◟"];

    #[verifier::type_invariant]
    closed spec fn frame_exists(self) -> bool {
        self.frame < self.frames@.len()
    }

    /// A spinner with the given frames, where there are any.
    #[must_use]
    pub fn new(frames: Vec<&'static str>) -> (result: Option<Spinner>)
        ensures
            match result {
                Some(spinner) => frames@.len() > 0 && spinner@ == (SpinnerView {
                    frame: 0,
                    frames: frames@,
                }),
                None => frames@.len() == 0,
            },
    {
        if frames.len() == 0 {
            None
        } else {
            Some(Spinner { frame: 0, frames })
        }
    }

    /// A spinner with the given frames, where there are any.
    #[must_use]
    pub fn from_slice(frames: &[&'static str]) -> (result: Option<Spinner>)
        ensures
            match result {
                Some(spinner) => frames@.len() > 0 && spinner@ == (SpinnerView {
                    frame: 0,
                    frames: frames@,
                }),
                None => frames@.len() == 0,
            },
    {
        let mut copy: Vec<&'static str> = Vec::new();
        for i in 0..frames.len()
            invariant
                copy@ =~= frames@.take(i as int),
        {
            copy.push(frames[i]);
        }
        assert(copy@ =~= frames@);
        Self::new(copy)
    }

    /// The frames of the spinner.
    pub fn frames(&self) -> (frames: &[&'static str])
        ensures
            frames@ == self@.frames,
    {
        self.frames.as_slice()
    }

    /// The next frame; the first one follows the last.
    #[must_use]
    pub fn next_frame(&mut self) -> (frame: &'static str)
        ensures
            0 <= old(self)@.frame < old(self)@.frames.len(),
            frame == old(self)@.frames[old(self)@.frame],
            final(self)@ == advanced(old(self)@),
    {
        proof {
            use_type_invariant(&*self);
        }
        let frame = self.frames[self.frame];
        if self.frame == self.frames.len() - 1 {
            self.frame = 0;
        } else {
            self.frame = self.frame + 1;
        }
        frame
    }
}

impl Default for Spinner {
    fn default() -> (spinner: Spinner)
        ensures
            spinner@.frame == 0,
            spinner@.frames == Spinner::BRAILLE_SPIN@,
    {
        let frames = Spinner::BRAILLE_SPIN;
        let mut copy: Vec<&'static str> = Vec::new();
        for i in 0..10usize
            invariant
                frames@ == Spinner::BRAILLE_SPIN@,
                frames@.len() == 10,
                copy@ =~= frames@.take(i as int),
        {
            copy.push(frames[i]);
        }
        assert(copy@ =~= frames@);
        Spinner { frame: 0, frames: copy }
    }
}

/// A spinner after one frame.
pub open spec fn advanced(spinner: SpinnerView) -> SpinnerView {
    SpinnerView {
        frame: if spinner.frame + 1 == spinner.frames.len() {
            0
        } else {
            spinner.frame + 1
        },
        frames: spinner.frames,
    }
}

/// A spinner after several frames.
pub open spec fn advanced_by(spinner: SpinnerView, count: nat) -> SpinnerView
    decreases count,
{
    if count == 0 {
        spinner
    } else {
        advanced(advanced_by(spinner, (count - 1) as nat))
    }
}

/// From its first frame on, a spinner shows its frames in order, again and again.
pub proof fn lemma_spinner_cycles(spinner: SpinnerView, count: nat)
    requires
        spinner.frame == 0,
        spinner.frames.len() > 0,
    ensures
        advanced_by(spinner, count).frame == count % spinner.frames.len(),
        advanced_by(spinner, count).frames == spinner.frames,
        advanced_by(spinner, spinner.frames.len()) == spinner,
    decreases count,
{
    lemma_spinner_position(spinner, count);
    lemma_spinner_position(spinner, spinner.frames.len());
    vstd::arithmetic::div_mod::lemma_mod_self_0(spinner.frames.len() as int);
}

proof fn lemma_spinner_position(spinner: SpinnerView, count: nat)
    requires
        spinner.frame == 0,
        spinner.frames.len() > 0,
    ensures
        advanced_by(spinner, count).frame == count % spinner.frames.len(),
        advanced_by(spinner, count).frames == spinner.frames,
    decreases count,
{
    let len = spinner.frames.len();
    if count > 0 {
        lemma_spinner_position(spinner, (count - 1) as nat);
        let before = (count - 1) as int % len as int;
        vstd::arithmetic::div_mod::lemma_fundamental_div_mod((count - 1) as int, len as int);
        if before + 1 == len {
            let turns = (count - 1) as int / len as int;
            assert((turns + 1) * len == turns * len + len) by (nonlinear_arith);
            assert(turns * len == len * turns) by (nonlinear_arith);
            vstd::arithmetic::div_mod::lemma_fundamental_div_mod_converse(
                count as int,
                len as int,
                turns + 1,
                0,
            );
        } else {
            let turns = (count - 1) as int / len as int;
            assert(turns * len == len * turns) by (nonlinear_arith);
            vstd::arithmetic::div_mod::lemma_fundamental_div_mod_converse(
                count as int,
                len as int,
                turns,
                before + 1,
            );
        }
    } else {
        vstd::arithmetic::div_mod::lemma_small_mod(0, len);
    }
}

} // verus!
