use vstd::prelude::*;

use crate::scene::SceneGraph;

verus! {

/// A behaviour attached to a game object, driven in three phases by the frame
/// loop: `start` once before the first frame, then `update` and `draw` once
/// each per frame.
pub trait Component {
    fn start(&mut self);

    fn update(&mut self);

    fn draw(&mut self);

    /// An independent copy of the behaviour's state: changing the copy never
    /// changes the original.
    fn box_clone(&self) -> (r: Box<Self>) where Self: Sized
        ensures
            *r == *self,
    ;
}

/// A named entity. Its transform is node `transform` of a scene graph; its
/// components are kept in the order they were attached.
pub struct GameObject<C> {
    name: String,
    transform: usize,
    components: Vec<C>,
}

impl<C> GameObject<C> {
    /// The entity's name.
    pub closed spec fn spec_name(&self) -> Seq<char> {
        self.name@
    }

    /// The scene-graph node of the entity's transform.
    pub closed spec fn spec_transform(&self) -> usize {
        self.transform
    }

    /// The attached components, in order of attachment.
    pub closed spec fn spec_components(&self) -> Seq<C> {
        self.components@
    }

    /// Creates an entity named `name`, with no component, whose transform is
    /// a new root node of `graph`.
    pub fn new(name: String, graph: &mut SceneGraph) -> (r: GameObject<C>)
        requires
            old(graph).wf(),
            old(graph)@.len() < usize::MAX,
        ensures
            final(graph).wf(),
            final(graph)@ == old(graph)@.push(None),
            r.spec_name() == name@,
            r.spec_transform() == old(graph)@.len(),
            r.spec_components() == Seq::<C>::empty(),
    {
        let transform = graph.add_node();
        GameObject { name, transform, components: Vec::new() }
    }

    /// Appends `component` to the entity's components; nothing of it runs
    /// yet.
    pub fn attach_component(&mut self, component: C)
        ensures
            final(self).spec_components() == old(self).spec_components().push(component),
            final(self).spec_name() == old(self).spec_name(),
            final(self).spec_transform() == old(self).spec_transform(),
    {
        self.components.push(component);
    }

    /// The entity's name.
    pub fn name(&self) -> (r: &String)
        ensures
            r@ == self.spec_name(),
    {
        &self.name
    }

    /// Renames the entity.
    pub fn set_name(&mut self, name: String)
        ensures
            final(self).spec_name() == name@,
            final(self).spec_transform() == old(self).spec_transform(),
            final(self).spec_components() == old(self).spec_components(),
    {
        self.name = name;
    }

    /// The scene-graph node of the entity's transform.
    pub fn transform(&self) -> (r: usize)
        ensures
            r == self.spec_transform(),
    {
        self.transform
    }

    /// The attached components, in order of attachment.
    pub fn components(&self) -> (r: &Vec<C>)
        ensures
            r@ == self.spec_components(),
    {
        &self.components
    }
}

/// A component together with the entity that it is attached to. The entity
/// is named by its index among the scene's entities and is not owned.
pub struct ComponentRef<C> {
    pub owner: usize,
    pub component: C,
}

impl<C: Component> ComponentRef<C> {
    /// Attaches `component` to entity `owner`; nothing of it runs yet.
    pub fn new(owner: usize, component: C) -> (r: ComponentRef<C>)
        ensures
            r.owner == owner,
            r.component == component,
    {
        ComponentRef { owner, component }
    }
}

} // verus!
