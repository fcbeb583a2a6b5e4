//! Audio sources: components that play an audio clip.

use crate::component::struct_component_manager::{Iter, StructComponentManager, MAX_COMPONENTS};
use crate::ecs::Entity;
use crate::wav::Wave;
use std::rc::Rc;
use vstd::prelude::*;

verus! {

#[derive(Debug)]
pub struct AudioSource {
    audio_clip: Rc<Wave>,
    offset: usize,
    is_playing: bool,
    looping: bool,
}

impl AudioSource {
    #[verifier::type_invariant]
    spec fn offset_in_clip(self) -> bool {
        self.offset <= self.audio_clip.data.samples@.len()
    }

    /// The samples of the clip.
    pub closed spec fn clip(&self) -> Seq<u16> {
        self.audio_clip.data.samples@
    }

    /// The index of the next sample to play.
    pub closed spec fn position(&self) -> nat {
        self.offset as nat
    }

    pub closed spec fn playing(&self) -> bool {
        self.is_playing
    }

    /// Whether the clip starts over when it ends.
    pub closed spec fn loops(&self) -> bool {
        self.looping
    }

    /// A source for `audio_clip`, stopped at the beginning, not looping.
    pub fn new(audio_clip: Rc<Wave>) -> (source: AudioSource)
        ensures
            source.clip() == audio_clip.data.samples@,
            source.position() == 0,
            !source.playing(),
            !source.loops(),
    {
        AudioSource { audio_clip: audio_clip, offset: 0, is_playing: false, looping: false }
    }

    /// Start playing the current audio clip from where it left off.
    pub fn play(&mut self)
        ensures
            final(self).playing(),
            final(self).position() == old(self).position(),
            final(self).clip() == old(self).clip(),
            final(self).loops() == old(self).loops(),
    {
        proof {
            use_type_invariant(&*self);
        }
        self.is_playing = true;
    }

    /// Pause the clip without resetting it to the beginning.
    pub fn pause(&mut self)
        ensures
            !final(self).playing(),
            final(self).position() == old(self).position(),
            final(self).clip() == old(self).clip(),
            final(self).loops() == old(self).loops(),
    {
        proof {
            use_type_invariant(&*self);
        }
        self.is_playing = false;
    }

    /// Stop the current audio clip and reset it to the beginning.
    pub fn stop(&mut self)
        ensures
            !final(self).playing(),
            final(self).position() == 0,
            final(self).clip() == old(self).clip(),
            final(self).loops() == old(self).loops(),
    {
        proof {
            use_type_invariant(&*self);
        }
        self.is_playing = false;
        self.offset = 0;
    }

    /// Reset the audio clip the start without stoping it.
    pub fn reset(&mut self)
        ensures
            final(self).playing() == old(self).playing(),
            final(self).position() == 0,
            final(self).clip() == old(self).clip(),
            final(self).loops() == old(self).loops(),
    {
        proof {
            use_type_invariant(&*self);
        }
        self.offset = 0;
    }

    /// Retrieve whether the audio clip is currently playing.
    pub fn is_playing(&self) -> (playing: bool)
        ensures
            playing == self.playing(),
    {
        self.is_playing
    }

    /// The samples still to be played.
    pub fn remaining_samples(&self) -> (samples: &[u16])
        ensures
            samples@ == self.clip().subrange(self.position() as int, self.clip().len() as int),
    {
        proof {
            use_type_invariant(self);
        }
        let samples = self.audio_clip.data.samples.as_slice();
        vstd::slice::slice_subrange(samples, self.offset, samples.len())
    }

    /// Records that `samples_written` of the remaining samples were sent to the audio device.
    /// When the clip is used up the source goes back to the beginning, and stops unless it loops.
    pub fn advance(&mut self, samples_written: usize)
        requires
            old(self).position() + samples_written <= old(self).clip().len(),
        ensures
            advanced(*old(self), *final(self), samples_written as nat),
    {
        proof {
            use_type_invariant(&*self);
        }
        let clip_len = self.audio_clip.data.samples.len();
        let total_samples = self.offset + samples_written;
        if total_samples >= clip_len {
            self.offset = 0;
            if !self.looping {
                self.stop();
            }
        } else {
            self.offset = total_samples;
        }
    }
}

/// `after` is `before` once `written` of its remaining samples were sent to the audio device:
/// the same clip and looping; at the end of the clip it is back at the beginning and plays on
/// only if it loops, and otherwise it is `written` samples further along.
pub open spec fn advanced(before: AudioSource, after: AudioSource, written: nat) -> bool {
    let total = before.position() + written;
    &&& after.clip() == before.clip()
    &&& after.loops() == before.loops()
    &&& if total >= before.clip().len() {
        &&& after.position() == 0
        &&& after.playing() == (before.playing() && before.loops())
    } else {
        &&& after.position() == total
        &&& after.playing() == before.playing()
    }
}

/// Manages the audio sources of the entities.
pub struct AudioSourceManager {
    inner: StructComponentManager<AudioSource, ()>,
}

impl View for AudioSourceManager {
    type V = Map<u32, AudioSource>;

    closed spec fn view(&self) -> Map<u32, AudioSource> {
        self.inner@
    }
}

impl AudioSourceManager {
    pub closed spec fn wf(&self) -> bool {
        self.inner.wf()
    }

    /// The number of sources.
    pub closed spec fn count(&self) -> nat {
        self.inner.entity_order().len()
    }

    /// The entities that own a source, in the order their sources were assigned.
    pub closed spec fn entity_order(&self) -> Seq<Entity> {
        self.inner.entity_order()
    }

    /// The sources, in the order they were assigned.
    pub closed spec fn source_order(&self) -> Seq<AudioSource> {
        self.inner.component_order()
    }

    /// The ids of the entities whose sources are marked for destruction.
    pub closed spec fn marked(&self) -> Set<u32> {
        self.inner.marked()
    }

    pub fn new() -> (manager: AudioSourceManager)
        ensures
            manager.wf(),
            manager@ == Map::<u32, AudioSource>::empty(),
            manager.count() == 0,
    {
        AudioSourceManager { inner: StructComponentManager::new() }
    }

    /// Gives `entity` a stopped source for `audio_clip`.
    pub fn assign(&mut self, entity: Entity, audio_clip: Rc<Wave>)
        requires
            old(self).wf(),
            !old(self)@.contains_key(entity.0),
            old(self).count() < MAX_COMPONENTS,
        ensures
            final(self).wf(),
            final(self).count() == old(self).count() + 1,
            final(self)@.dom() == old(self)@.dom().insert(entity.0),
            forall|id: u32| id != entity.0 && old(self)@.contains_key(id) ==> #[trigger] final(self)@[id] == old(self)@[id],
            final(self)@[entity.0].clip() == audio_clip.data.samples@,
            final(self)@[entity.0].position() == 0,
            !final(self)@[entity.0].playing(),
            !final(self)@[entity.0].loops(),
    {
        self.inner.assign(entity, AudioSource::new(audio_clip));
    }

    pub fn get(&self, entity: Entity) -> (source: Option<&AudioSource>)
        requires
            self.wf(),
        ensures
            match source {
                Some(s) => self@.contains_key(entity.0) && *s == self@[entity.0],
                None => !self@.contains_key(entity.0),
            },
    {
        self.inner.get(entity)
    }

    pub fn get_mut(&mut self, entity: Entity) -> (source: Option<&mut AudioSource>)
        requires
            old(self).wf(),
        ensures
            final(self).wf(),
            final(self).count() == old(self).count(),
            match source {
                Some(s) => {
                    &&& old(self)@.contains_key(entity.0)
                    &&& *s == old(self)@[entity.0]
                    &&& final(self)@ == old(self)@.insert(entity.0, *final(s))
                },
                None => !old(self)@.contains_key(entity.0) && final(self)@ == old(self)@,
            },
    {
        self.inner.get_mut(entity)
    }

    /// The sources with their entities, in the order they were assigned.
    pub fn iter(&self) -> (iter: Iter<'_, AudioSource>)
        requires
            self.wf(),
        ensures
            iter.remaining_components() == self.source_order(),
            iter.remaining_entities() == self.entity_order(),
    {
        self.inner.iter()
    }

    /// Mutable access to the `index`-th source in assignment order, which must exist: the way to
    /// visit every source for mutation.
    pub fn get_mut_at(&mut self, index: usize) -> (source: &mut AudioSource)
        requires
            old(self).wf(),
            index < old(self).count(),
        ensures
            final(self).wf(),
            *source == old(self).source_order()[index as int],
            final(self).source_order() == old(self).source_order().update(index as int, *final(source)),
            final(self)@ == old(self)@.insert(old(self).entity_order()[index as int].0, *final(source)),
            final(self).entity_order() == old(self).entity_order(),
            final(self).count() == old(self).count(),
            final(self).marked() == old(self).marked(),
    {
        self.inner.get_mut_at(index)
    }

    /// The per-frame step of the audio system once the samples are streamed: `written[i]` of the
    /// remaining samples of the `i`-th source were sent to the audio device. Every playing source
    /// advances by what was written for it; the others stay as they are.
    pub fn advance_playing(&mut self, written: &[usize])
        requires
            old(self).wf(),
            written@.len() == old(self).count(),
            forall|i: int|
                0 <= i < written@.len() && (#[trigger] old(self).source_order()[i]).playing() ==> old(
                    self,
                ).source_order()[i].position() + written@[i] <= old(self).source_order()[i].clip().len(),
        ensures
            final(self).wf(),
            final(self).count() == old(self).count(),
            final(self).entity_order() == old(self).entity_order(),
            final(self).marked() == old(self).marked(),
            forall|i: int|
                0 <= i < old(self).count() ==> if old(self).source_order()[i].playing() {
                    advanced(old(self).source_order()[i], #[trigger] final(self).source_order()[i], written@[i] as nat)
                } else {
                    final(self).source_order()[i] == old(self).source_order()[i]
                },
    {
        let count = self.inner.len();
        assert(old(self).source_order().len() == count);
        let mut i: usize = 0;
        while i < count
            invariant
                self.wf(),
                i <= count,
                count == old(self).count(),
                self.count() == old(self).count(),
                self.source_order().len() == count,
                written@.len() == count,
                self.entity_order() == old(self).entity_order(),
                self.marked() == old(self).marked(),
                forall|k: int| i <= k < count ==> #[trigger] self.source_order()[k] == old(self).source_order()[k],
                forall|k: int|
                    0 <= k < written@.len() && (#[trigger] old(self).source_order()[k]).playing() ==> old(
                        self,
                    ).source_order()[k].position() + written@[k] <= old(self).source_order()[k].clip().len(),
                forall|k: int|
                    0 <= k < i ==> if old(self).source_order()[k].playing() {
                        advanced(old(self).source_order()[k], #[trigger] self.source_order()[k], written@[k] as nat)
                    } else {
                        self.source_order()[k] == old(self).source_order()[k]
                    },
            decreases count - i,
        {
            let ghost before = self.source_order();
            let source = self.get_mut_at(i);
            if source.is_playing() {
                source.advance(written[i]);
            }
            proof {
                assert(self.source_order().len() == before.len());
                assert forall|k: int| i + 1 <= k < count implies #[trigger] self.source_order()[k] == old(self).source_order()[k] by {
                    assert(self.source_order()[k] == before[k]);
                }
                assert forall|k: int| 0 <= k < i + 1 implies if old(self).source_order()[k].playing() {
                    advanced(old(self).source_order()[k], #[trigger] self.source_order()[k], written@[k] as nat)
                } else {
                    self.source_order()[k] == old(self).source_order()[k]
                } by {
                    if k < i {
                        assert(self.source_order()[k] == before[k]);
                    }
                }
            }
            i = i + 1;
        }
    }

    pub fn destroy(&mut self, entity: Entity)
        requires
            old(self).wf(),
        ensures
            final(self).wf(),
            final(self)@ == old(self)@,
            final(self).count() == old(self).count(),
            final(self).entity_order() == old(self).entity_order(),
            final(self).source_order() == old(self).source_order(),
            final(self).marked() == old(self).marked().insert(entity.0),
    {
        self.inner.destroy(entity);
    }
}

/// Plays the audio sources: each frame, every playing source streams its remaining samples to
/// the audio device and advances by what was written.
#[derive(Debug, Clone, Copy)]
pub struct AudioSystem;

} // verus!
