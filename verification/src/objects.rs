//! Draw objects (a drawable with a layer, shaders and a lifetime) and the
//! library that owns them, addressed by screen and object id.
use crate::drawables::Drawable;
use crate::shaders::Shader;
use std::time::{Duration, Instant};
use vstd::prelude::*;

verus! {

/// Addresses one object on one screen.
#[derive(Debug, Clone, Copy, PartialEq, Eq, Structural, Hash)]
pub struct DrawObjectKey {
    pub screen_id: usize,
    pub object_id: usize,
}

/// When an object leaves the screen by itself.
#[derive(Debug, Clone, Copy)]
pub enum ObjectLifetime {
    /// After the next rendered frame.
    RemoveNextFrame,
    /// Only when removed explicitly.
    ExplicitRemove,
    /// After this much time since it was (re)drawn.
    ForTime(Duration),
}

/// A drawable together with how and how long it is shown.
#[derive(Debug)]
pub struct DrawObject {
    pub lifetime: ObjectLifetime,
    pub creation_time: Instant,
    pub layer: usize,
    pub shaders: Vec<Shader>,
    pub drawable: Drawable,
}

impl DrawObject {
    /// The object can be drawn, bounded and measured without arithmetic
    /// failure.
    pub open spec fn ok(&self, sprites: crate::sprites::SpriteRegistry) -> bool {
        self.drawable.draw_ok(sprites) && self.drawable.bounding_ok() && self.drawable.size_ok()
    }
}

/// All objects, each owned by the screen it was added for. An object's id
/// is the number of objects added before it. An object can be taken out
/// to be changed and put back into its slot.
#[derive(Debug)]
pub struct DrawObjectLibrary {
    objects: Vec<Option<(usize, DrawObject)>>,
}

impl DrawObjectLibrary {
    /// The slots, indexed by object id: the owning screen and the object,
    /// or `None` while the object is taken out.
    pub closed spec fn slots(&self) -> Seq<Option<(usize, DrawObject)>> {
        self.objects@
    }

    /// The library never holds more than `usize::MAX` slots.
    pub proof fn lemma_len_fits(&self)
        ensures
            self.slots().len() <= usize::MAX,
    {
        broadcast use vstd::std_specs::vec::axiom_spec_len;

        assert(self.objects.len() == self.objects@.len());
    }

    /// The key addresses an object that is in the library.
    pub open spec fn has_key(&self, key: DrawObjectKey) -> bool {
        &&& key.object_id < self.slots().len()
        &&& self.slots()[key.object_id as int] matches Some(e)
        &&& self.slots()[key.object_id as int]->Some_0.0 == key.screen_id
    }

    /// Every object in the library can be drawn, bounded and measured.
    pub open spec fn all_ok(&self, sprites: crate::sprites::SpriteRegistry) -> bool {
        forall|i: int| 0 <= i < self.slots().len() && (#[trigger] self.slots()[i]) is Some ==> self.slots()[i]->Some_0.1.ok(sprites)
    }

    /// The object a present key addresses.
    pub open spec fn object_at(&self, key: DrawObjectKey) -> DrawObject {
        self.slots()[key.object_id as int]->Some_0.1
    }

    pub fn new() -> (l: Self)
        ensures
            l.slots().len() == 0,
    {
        DrawObjectLibrary { objects: Vec::new() }
    }

    /// The number of objects added so far.
    pub fn len(&self) -> (n: usize)
        ensures
            n == self.slots().len(),
    {
        self.objects.len()
    }

    /// The object in slot `i`, if the slot exists and holds one.
    pub fn slot(&self, i: usize) -> (r: Option<&DrawObject>)
        ensures
            i < self.slots().len() && self.slots()[i as int] is Some ==> r == Some(&self.slots()[i as int]->Some_0.1),
            !(i < self.slots().len() && self.slots()[i as int] is Some) ==> r is None,
    {
        if i < self.objects.len() {
            match &self.objects[i] {
                Some(e) => Some(&e.1),
                None => None,
            }
        } else {
            None
        }
    }

    /// Stores the object for the screen and returns its id: the number of
    /// objects added before. The library never drops an object (removing
    /// one only unregisters it from its screen, and changing one takes it
    /// out of its slot and puts it back), so this is also the number of
    /// objects held, and an id is never handed out twice.
    pub fn add_obj(&mut self, screen_id: usize, object: DrawObject) -> (id: usize)
        ensures
            id == old(self).slots().len(),
            final(self).slots() == old(self).slots().push(Some((screen_id, object))),
    {
        let id = self.objects.len();
        self.objects.push(Some((screen_id, object)));
        id
    }

    /// The object with this key, if it is in the library.
    pub fn find_drawable(&self, key: &DrawObjectKey) -> (r: Option<&DrawObject>)
        ensures
            self.has_key(*key) ==> r == Some(&self.object_at(*key)),
            !self.has_key(*key) ==> r is None,
    {
        if key.object_id < self.objects.len() {
            match &self.objects[key.object_id] {
                Some(e) => {
                    if e.0 == key.screen_id {
                        return Some(&e.1);
                    }
                },
                None => {},
            }
        }
        None
    }

    /// Takes the object with this key out of its slot, if it is there.
    pub fn take(&mut self, key: &DrawObjectKey) -> (r: Option<DrawObject>)
        ensures
            old(self).has_key(*key) ==> r == Some(old(self).object_at(*key)) && final(self).slots()
                == old(self).slots().update(key.object_id as int, None),
            !old(self).has_key(*key) ==> r is None && final(self).slots() == old(self).slots(),
    {
        if key.object_id < self.objects.len() {
            let present = match &self.objects[key.object_id] {
                Some(e) => e.0 == key.screen_id,
                None => false,
            };
            if present {
                let slot = self.objects.remove(key.object_id);
                self.objects.insert(key.object_id, None);
                assert(self.objects@ =~= old(self).objects@.update(key.object_id as int, None));
                return match slot {
                    Some(e) => Some(e.1),
                    None => None,
                };
            }
        }
        None
    }

    /// Puts an object back into the empty slot of its key.
    pub fn restore(&mut self, key: &DrawObjectKey, object: DrawObject)
        requires
            key.object_id < old(self).slots().len(),
            old(self).slots()[key.object_id as int] is None,
        ensures
            final(self).slots() == old(self).slots().update(key.object_id as int, Some((key.screen_id, object))),
    {
        let _ = self.objects.remove(key.object_id);
        self.objects.insert(key.object_id, Some((key.screen_id, object)));
        assert(self.objects@ =~= old(self).objects@.update(key.object_id as int, Some((key.screen_id, object))));
    }
}

} // verus!
