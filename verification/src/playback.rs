use vstd::prelude::*;

verus! {

/// Where playback stands in the toolpath. The timing (speed and the
/// fraction of a step already elapsed) is kept by the caller, which
/// hands the whole steps it measured to `advance_by`.
#[derive(Clone, Debug)]
pub struct PlaybackState {
    pub playing: bool,
    pub current_segment_index: u32,
    pub total_segments: u32,
    pub current_layer_index: usize,
    pub total_layers: usize,
    pub loop_playback: bool,
}

/// The index of the last segment, or 0 without segments.
pub open spec fn last_index(total: u32) -> u32 {
    if total == 0 {
        0
    } else {
        (total - 1) as u32
    }
}

/// How many segments fast-forward and rewind skip: a fiftieth of the
/// toolpath, at least one.
pub open spec fn skip_len(total: u32) -> u32 {
    if total / 50 >= 1 {
        total / 50
    } else {
        1
    }
}

pub open spec fn min_u32(a: int, b: int) -> u32 {
    (if a <= b {
        a
    } else {
        b
    }) as u32
}

/// `a - b`, or 0 where `b` exceeds `a`.
pub open spec fn sat_sub(a: u32, b: u32) -> u32 {
    if a >= b {
        (a - b) as u32
    } else {
        0
    }
}

impl PlaybackState {
    /// The position lies on a segment (or at 0 without segments).
    pub open spec fn in_range(&self) -> bool {
        self.current_segment_index <= last_index(self.total_segments)
    }

    /// The same state at another position.
    pub open spec fn at(&self, index: u32) -> PlaybackState {
        PlaybackState { current_segment_index: index, ..*self }
    }

    /// The state `advance_by(increment)` leaves.
    pub open spec fn advanced(&self, increment: u32) -> PlaybackState {
        if !self.playing || self.total_segments == 0 {
            *self
        } else {
            let moved = if increment > 0 {
                min_u32(self.current_segment_index + increment, self.total_segments - 1)
            } else {
                self.current_segment_index
            };
            if moved >= self.total_segments - 1 {
                PlaybackState {
                    playing: false,
                    current_segment_index: (self.total_segments - 1) as u32,
                    ..*self
                }
            } else {
                self.at(moved)
            }
        }
    }

    pub fn new() -> (r: Self)
        ensures
            !r.playing,
            r.current_segment_index == 0,
            r.total_segments == 0,
            r.current_layer_index == 0,
            r.total_layers == 0,
            !r.loop_playback,
            r.in_range(),
    {
        PlaybackState {
            playing: false,
            current_segment_index: 0,
            total_segments: 0,
            current_layer_index: 0,
            total_layers: 0,
            loop_playback: false,
        }
    }

    /// Starts over, stopped at the first segment of a toolpath of the
    /// given size.
    pub fn reset(&mut self, total_segments: u32, total_layers: usize)
        ensures
            *final(self) == (PlaybackState {
                playing: false,
                current_segment_index: 0,
                total_segments,
                current_layer_index: 0,
                total_layers,
                loop_playback: old(self).loop_playback,
            }),
            final(self).in_range(),
    {
        self.current_segment_index = 0;
        self.total_segments = total_segments;
        self.total_layers = total_layers;
        self.current_layer_index = 0;
        self.playing = false;
    }

    /// Jumps to `segment_index`, clamped to the last segment.
    pub fn set_progress(&mut self, segment_index: u32)
        ensures
            *final(self) == old(self).at(
                min_u32(segment_index as int, last_index(old(self).total_segments) as int),
            ),
            final(self).in_range(),
    {
        let last = self.total_segments.saturating_sub(1);
        self.current_segment_index = if segment_index <= last {
            segment_index
        } else {
            last
        };
    }

    /// One segment on, stopping at the last one.
    pub fn step_forward(&mut self)
        requires
            old(self).total_segments > 0 ==> old(self).current_segment_index < u32::MAX,
        ensures
            *final(self) == if old(self).total_segments > 0 {
                old(self).at(
                    min_u32(
                        old(self).current_segment_index + 1,
                        old(self).total_segments - 1,
                    ),
                )
            } else {
                *old(self)
            },
            old(self).in_range() ==> final(self).in_range(),
    {
        if self.total_segments > 0 {
            let next = self.current_segment_index + 1;
            let last = self.total_segments - 1;
            self.current_segment_index = if next <= last {
                next
            } else {
                last
            };
        }
    }

    /// One segment back, stopping at the first one.
    pub fn step_backward(&mut self)
        ensures
            *final(self) == old(self).at(sat_sub(old(self).current_segment_index, 1)),
            old(self).in_range() ==> final(self).in_range(),
    {
        self.current_segment_index = self.current_segment_index.saturating_sub(1);
    }

    /// A fiftieth of the toolpath on, stopping at the last segment.
    pub fn fast_forward(&mut self)
        requires
            old(self).total_segments > 0 ==> old(self).current_segment_index + skip_len(
                old(self).total_segments,
            ) <= u32::MAX,
        ensures
            *final(self) == if old(self).total_segments > 0 {
                old(self).at(
                    min_u32(
                        old(self).current_segment_index + skip_len(old(self).total_segments),
                        old(self).total_segments - 1,
                    ),
                )
            } else {
                *old(self)
            },
            final(self).current_segment_index == if old(self).total_segments > 0 {
                let skip: int = if old(self).total_segments / 50 >= 1 {
                    (old(self).total_segments / 50) as int
                } else {
                    1
                };
                if old(self).current_segment_index + skip <= old(self).total_segments - 1 {
                    old(self).current_segment_index + skip
                } else {
                    old(self).total_segments - 1
                }
            } else {
                old(self).current_segment_index as int
            },
            final(self).playing == old(self).playing,
            final(self).total_segments == old(self).total_segments,
            final(self).current_layer_index == old(self).current_layer_index,
            final(self).total_layers == old(self).total_layers,
            final(self).loop_playback == old(self).loop_playback,
            old(self).in_range() ==> final(self).in_range(),
    {
        if self.total_segments > 0 {
            let skip = self.skip();
            let next = self.current_segment_index + skip;
            let last = self.total_segments - 1;
            self.current_segment_index = if next <= last {
                next
            } else {
                last
            };
        }
    }

    fn skip(&self) -> (r: u32)
        ensures
            r == skip_len(self.total_segments),
            r == if self.total_segments / 50 >= 1 {
                self.total_segments / 50
            } else {
                1
            },
    {
        let fiftieth = self.total_segments / 50;
        if fiftieth >= 1 {
            fiftieth
        } else {
            1
        }
    }

    /// A fiftieth of the toolpath back, stopping at the first segment.
    pub fn rewind(&mut self)
        ensures
            *final(self) == old(self).at(
                sat_sub(old(self).current_segment_index, skip_len(old(self).total_segments)),
            ),
            final(self).current_segment_index == {
                let skip: int = if old(self).total_segments / 50 >= 1 {
                    (old(self).total_segments / 50) as int
                } else {
                    1
                };
                if old(self).current_segment_index >= skip {
                    old(self).current_segment_index - skip
                } else {
                    0
                }
            },
            final(self).playing == old(self).playing,
            final(self).total_segments == old(self).total_segments,
            final(self).current_layer_index == old(self).current_layer_index,
            final(self).total_layers == old(self).total_layers,
            final(self).loop_playback == old(self).loop_playback,
            old(self).in_range() ==> final(self).in_range(),
    {
        let skip = self.skip();
        self.current_segment_index = self.current_segment_index.saturating_sub(skip);
    }

    /// Whether `advance_by` moves: playing, with segments to play.
    pub fn is_advancing(&self) -> (r: bool)
        ensures
            r == (self.playing && self.total_segments > 0),
    {
        self.playing && self.total_segments > 0
    }

    /// Moves `increment` whole segments on while playing; on reaching the
    /// last segment, playback stops there.
    pub fn advance_by(&mut self, increment: u32)
        requires
            old(self).playing && old(self).total_segments > 0 ==> old(self).current_segment_index
                + increment <= u32::MAX,
        ensures
            *final(self) == old(self).advanced(increment),
            old(self).playing && old(self).total_segments > 0 ==> {
                &&& final(self).current_segment_index == if old(self).current_segment_index
                    + increment <= old(self).total_segments - 1 {
                    old(self).current_segment_index + increment
                } else {
                    old(self).total_segments - 1
                }
                &&& final(self).playing == (old(self).current_segment_index + increment
                    < old(self).total_segments - 1)
                &&& final(self).total_segments == old(self).total_segments
                &&& final(self).current_layer_index == old(self).current_layer_index
                &&& final(self).total_layers == old(self).total_layers
                &&& final(self).loop_playback == old(self).loop_playback
            },
            !(old(self).playing && old(self).total_segments > 0) ==> *final(self) == *old(self),
    {
        if !self.playing || self.total_segments == 0 {
            return;
        }
        let last = self.total_segments - 1;
        if increment > 0 {
            let next = self.current_segment_index + increment;
            self.current_segment_index = if next <= last {
                next
            } else {
                last
            };
        }
        if self.current_segment_index >= last {
            self.playing = false;
            self.current_segment_index = last;
        }
    }

    /// Progress as a fraction `numerator / denominator`: the position over
    /// the last index (at least 1), or 0 without segments.
    pub fn progress_fraction(&self) -> (r: (u32, u32))
        ensures
            r.1 == if self.total_segments >= 2 {
                (self.total_segments - 1) as u32
            } else {
                1u32
            },
            r.0 == if self.total_segments == 0 {
                0
            } else {
                self.current_segment_index
            },
    {
        if self.total_segments == 0 {
            return (0, 1);
        }
        let last = self.total_segments - 1;
        let denominator = if last >= 1 {
            last
        } else {
            1
        };
        (self.current_segment_index, denominator)
    }

    /// The play/pause button: pressing play at the last segment starts
    /// again from the first one.
    pub fn toggle_play(&mut self)
        ensures
            final(self).playing == !old(self).playing,
            final(self).current_segment_index == if !old(self).playing
                && old(self).current_segment_index >= last_index(old(self).total_segments) {
                0
            } else {
                old(self).current_segment_index
            },
            final(self).total_segments == old(self).total_segments,
            final(self).current_layer_index == old(self).current_layer_index,
            final(self).total_layers == old(self).total_layers,
            final(self).loop_playback == old(self).loop_playback,
            old(self).in_range() ==> final(self).in_range(),
    {
        if !self.playing && self.current_segment_index >= self.total_segments.saturating_sub(1) {
            self.current_segment_index = 0;
        }
        self.playing = !self.playing;
    }

    /// Back to the first segment, stopped.
    pub fn skip_to_start(&mut self)
        ensures
            *final(self) == (PlaybackState { playing: false, ..old(self).at(0) }),
            final(self).in_range(),
    {
        self.current_segment_index = 0;
        self.playing = false;
    }

    /// On to the last segment, stopped.
    pub fn skip_to_end(&mut self)
        ensures
            *final(self) == (PlaybackState {
                playing: false,
                ..old(self).at(last_index(old(self).total_segments))
            }),
            final(self).in_range(),
    {
        self.current_segment_index = self.total_segments.saturating_sub(1);
        self.playing = false;
    }
}

/// Playing never leaves the toolpath: from a position on a segment,
/// advancing by any number of steps stays on a segment, never moves back,
/// and stops playback exactly when the last segment is reached.
pub proof fn lemma_advance_stays_in_range(s: PlaybackState, increment: u32)
    requires
        s.in_range(),
        s.playing && s.total_segments > 0 ==> s.current_segment_index + increment <= u32::MAX,
    ensures
        s.advanced(increment).in_range(),
        s.advanced(increment).current_segment_index >= s.current_segment_index,
        s.playing && s.total_segments > 0 ==> (!s.advanced(increment).playing
            <==> s.advanced(increment).current_segment_index == s.total_segments - 1),
{
}

/// Advancing while playing moves exactly `increment` segments on, or to
/// the last segment where fewer are left; playback goes on exactly while
/// the last segment is not reached.
pub proof fn lemma_advance_moves_by_increment(s: PlaybackState, increment: u32)
    requires
        s.playing,
        s.total_segments > 0,
        s.current_segment_index + increment <= u32::MAX,
    ensures
        s.current_segment_index + increment <= s.total_segments - 1 ==> s.advanced(
            increment,
        ).current_segment_index == s.current_segment_index + increment,
        s.current_segment_index + increment >= s.total_segments - 1 ==> s.advanced(
            increment,
        ).current_segment_index == s.total_segments - 1,
        s.advanced(increment).playing <==> s.current_segment_index + increment
            < s.total_segments - 1,
{
}

/// Advancing by `a` and then by `b` ends where advancing by `a + b` does:
/// the steps a frame measures add up, whatever their size.
pub proof fn lemma_advance_additive(s: PlaybackState, a: u32, b: u32)
    requires
        s.current_segment_index + a + b <= u32::MAX,
    ensures
        s.advanced(a).advanced(b) == s.advanced((a + b) as u32),
{
}

/// The skip of fast-forward and rewind is the whole number of fiftieths
/// in the toolpath, and one segment for a toolpath of fewer than fifty.
pub proof fn lemma_skip_is_fiftieth(total: u32)
    ensures
        total >= 50 ==> 50 * skip_len(total) <= total < 50 * skip_len(total) + 50,
        total < 50 ==> skip_len(total) == 1,
        skip_len(total) >= 1,
{
}

/// Stepping forward then back returns to the same position, away from the
/// last segment.
pub proof fn lemma_step_forward_backward(s: PlaybackState)
    requires
        s.current_segment_index + 1 < s.total_segments,
    ensures
        ({
            let f = s.at(min_u32(s.current_segment_index + 1, s.total_segments - 1));
            f.at(sat_sub(f.current_segment_index, 1)) == s
        }),
{
}

/// Stepping back then forward returns to the same position, away from the
/// first segment.
pub proof fn lemma_step_backward_forward(s: PlaybackState)
    requires
        s.in_range(),
        s.current_segment_index > 0,
    ensures
        ({
            let b = s.at(sat_sub(s.current_segment_index, 1));
            b.at(min_u32(b.current_segment_index + 1, b.total_segments - 1)) == s
        }),
{
}

/// Fast-forward then rewind returns to the same position when the skip
/// does not run into the last segment.
pub proof fn lemma_fast_forward_rewind(s: PlaybackState)
    requires
        s.current_segment_index + skip_len(s.total_segments) < s.total_segments,
    ensures
        ({
            let f = s.at(
                min_u32(
                    s.current_segment_index + skip_len(s.total_segments),
                    s.total_segments - 1,
                ),
            );
            f.at(sat_sub(f.current_segment_index, skip_len(f.total_segments))) == s
        }),
{
}

/// Progress lies between 0 and 1, and is 1 exactly at the last segment of a
/// toolpath of two or more segments.
pub proof fn lemma_progress_bounds(s: PlaybackState)
    requires
        s.in_range(),
    ensures
        ({
            let num: int = if s.total_segments == 0 {
                0
            } else {
                s.current_segment_index as int
            };
            let den: int = if s.total_segments >= 2 {
                s.total_segments - 1
            } else {
                1
            };
            &&& 0 <= num <= den
            &&& 0 < den
            &&& (s.total_segments >= 2 ==> (num == den <==> s.current_segment_index
                == s.total_segments - 1))
        }),
{
}

} // verus!
