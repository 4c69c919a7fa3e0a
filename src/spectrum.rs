use vstd::prelude::*;

use crate::engine::EngineError;

verus! {

/// The abstract state of a spectral window: the samples buffered so far,
/// the window length, and whether the stream has ended.
pub struct WindowState<T> {
    pub buffer: Seq<T>,
    pub window: nat,
    pub closed: bool,
}

/// Collects samples into fixed-length windows for spectral analysis.
///
/// When the buffer reaches the window length, its first `window` samples are
/// handed out and the whole buffer is cleared: samples beyond the window are
/// dropped, and the next window starts empty.
pub struct SpectrumWindow<T> {
    buffer: Vec<T>,
    window: usize,
    closed: bool,
}

impl<T> View for SpectrumWindow<T> {
    type V = WindowState<T>;

    closed spec fn view(&self) -> WindowState<T> {
        WindowState { buffer: self.buffer@, window: self.window as nat, closed: self.closed }
    }
}

impl<T> SpectrumWindow<T> {
    /// The invariant: a positive window length, and while open a buffer
    /// shorter than it.
    pub open spec fn wf(&self) -> bool {
        &&& self@.window >= 1
        &&& !self@.closed ==> self@.buffer.len() < self@.window
        &&& self@.closed ==> self@.buffer.len() == 0
    }

    /// An empty, open window collector; a window length of zero is refused.
    pub fn new(window: usize) -> (r: Result<Self, EngineError>)
        ensures
            window == 0 <==> r == Err::<Self, EngineError>(EngineError::InvalidConfig),
            window > 0 <==> r is Ok,
            r matches Ok(w) ==> {
                &&& w.wf()
                &&& w@.buffer.len() == 0
                &&& w@.window == window
                &&& !w@.closed
            },
    {
        if window == 0 {
            return Err(EngineError::InvalidConfig);
        }
        Ok(SpectrumWindow { buffer: Vec::new(), window, closed: false })
    }

    /// Appends a block. Once the buffer holds at least `window` samples, its
    /// first `window` samples are returned and the buffer is cleared. A closed
    /// collector ignores the block.
    pub fn feed(&mut self, block: Vec<T>) -> (r: Option<Vec<T>>)
        requires
            old(self).wf(),
        ensures
            final(self).wf(),
            final(self)@.window == old(self)@.window,
            final(self)@.closed == old(self)@.closed,
            old(self)@.closed ==> r is None && final(self)@ == old(self)@,
            !old(self)@.closed ==> {
                let all = old(self)@.buffer + block@;
                if all.len() >= old(self)@.window {
                    &&& r matches Some(w) && w@ == all.take(old(self)@.window as int)
                    &&& final(self)@.buffer.len() == 0
                } else {
                    &&& r is None
                    &&& final(self)@.buffer == all
                }
            },
    {
        if self.closed {
            return None;
        }
        let mut block = block;
        self.buffer.append(&mut block);
        if self.buffer.len() < self.window {
            return None;
        }
        let mut w: Vec<T> = Vec::new();
        std::mem::swap(&mut w, &mut self.buffer);
        w.truncate(self.window);
        Some(w)
    }

    /// The stream has ended: the partial window is dropped without analysis,
    /// and the collector takes no more samples. Returns how many were dropped.
    pub fn end(&mut self) -> (dropped: usize)
        requires
            old(self).wf(),
        ensures
            final(self).wf(),
            final(self)@.closed,
            final(self)@.buffer.len() == 0,
            final(self)@.window == old(self)@.window,
            dropped == old(self)@.buffer.len(),
    {
        let dropped = self.buffer.len();
        self.buffer = Vec::new();
        self.closed = true;
        dropped
    }

    /// Samples waiting for the window to fill.
    pub fn buffered(&self) -> (r: usize)
        ensures
            r == self@.buffer.len(),
    {
        self.buffer.len()
    }

    /// The window length.
    pub fn window(&self) -> (r: usize)
        ensures
            r == self@.window,
    {
        self.window
    }
}

/// The number of points for a transform over `samples`: their count, which
/// must be positive.
pub fn transform_points<T>(samples: &Vec<T>) -> (r: Result<usize, EngineError>)
    ensures
        samples@.len() == 0 <==> r == Err::<usize, EngineError>(EngineError::InvalidInput),
        samples@.len() > 0 <==> r == Ok::<usize, EngineError>(samples@.len() as usize),
{
    if samples.len() == 0 {
        Err(EngineError::InvalidInput)
    } else {
        Ok(samples.len())
    }
}

/// The positive-frequency half of a spectrum of `bins.len()` bins: its first
/// `bins.len() / 2` bins, rounded down.
pub fn positive_half<T>(bins: Vec<T>) -> (r: Vec<T>)
    ensures
        r@.len() == bins@.len() / 2,
        r@ == bins@.take((bins@.len() / 2) as int),
{
    let mut bins = bins;
    let half = bins.len() / 2;
    bins.truncate(half);
    bins
}

} // verus!
