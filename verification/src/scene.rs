//! The scene: its sprites and 3D models, and whether the pointer drags.

use vstd::prelude::*;

verus! {

/// The objects drawn each frame, and whether the left button drags.
pub struct Scene<S, M> {
    pub sprites: Vec<S>,
    pub models_3d: Vec<M>,
    pub dragging: bool,
}

impl<S, M> Scene<S, M> {
    /// A scene of one sprite and one model, not dragging.
    pub fn new(sprite: S, model_3d: M) -> (r: Scene<S, M>)
        ensures
            r.sprites@ == seq![sprite],
            r.models_3d@ == seq![model_3d],
            !r.dragging,
    {
        let mut sprites = Vec::new();
        sprites.push(sprite);
        let mut models_3d = Vec::new();
        models_3d.push(model_3d);
        Scene { sprites, models_3d, dragging: false }
    }

    /// Replaces the sprite at `index`; a scene without that sprite is
    /// left as it is.
    pub fn set_sprite(&mut self, index: usize, sprite: S)
        ensures
            index < old(self).sprites.len() ==> final(self).sprites@ == old(self).sprites@.update(index as int, sprite),
            index >= old(self).sprites.len() ==> final(self).sprites@ == old(self).sprites@,
            final(self).models_3d == old(self).models_3d,
            final(self).dragging == old(self).dragging,
    {
        if index < self.sprites.len() {
            self.sprites.set(index, sprite);
        }
    }

    /// Per-frame update: the scene drags while the left button is held.
    pub fn update(&mut self, mouse_left_pressed: bool)
        ensures
            final(self).dragging == mouse_left_pressed,
            final(self).sprites == old(self).sprites,
            final(self).models_3d == old(self).models_3d,
    {
        if mouse_left_pressed && !self.dragging {
            self.dragging = true;
        }
        if !mouse_left_pressed {
            self.dragging = false;
        }
    }
}

} // verus!
