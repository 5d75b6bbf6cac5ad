//! Shader handles: an identity, a program and its uniform bindings.
use crate::uniforms::{height_name, width_name, UniformBuffer};
use vstd::prelude::*;

verus! {

/// Relies on rand's `random`: a `u64` drawn from the thread-local generator.
/// Nothing is known of the value.
#[verifier::external_body]
fn random_id() -> (r: u64) {
    rand::random::<u64>()
}

/// A draw-state descriptor and grouping key.
///
/// The identity is stamped at construction and is not derived from the
/// program or the uniforms: two shaders built separately from the same parts
/// are distinct for batching.
pub struct Shader<P, U> {
    id: u64,
    program: P,
    uniforms: UniformBuffer<U>,
}

impl<P, U> Shader<P, U> {
    /// The identity.
    pub closed spec fn spec_id(&self) -> u64 {
        self.id
    }

    /// The program.
    pub closed spec fn spec_program(&self) -> P {
        self.program
    }

    /// The uniform bindings.
    pub closed spec fn spec_uniforms(&self) -> Seq<(Seq<char>, U)> {
        self.uniforms@
    }

    /// A shader with a fresh random identity.
    pub fn new(program: P, uniforms: UniformBuffer<U>) -> (r: Self)
        ensures
            r.spec_program() == program,
            r.spec_uniforms() == uniforms@,
    {
        Shader { id: random_id(), program, uniforms }
    }

    /// A shader with the given identity, for callers that need
    /// deterministic identities.
    pub fn with_id(id: u64, program: P, uniforms: UniformBuffer<U>) -> (r: Self)
        ensures
            r.spec_id() == id,
            r.spec_program() == program,
            r.spec_uniforms() == uniforms@,
    {
        Shader { id, program, uniforms }
    }

    /// The identity.
    pub fn id(&self) -> (r: u64)
        ensures
            r == self.spec_id(),
    {
        self.id
    }

    /// The program.
    pub fn program(&self) -> (r: &P)
        ensures
            *r == self.spec_program(),
    {
        &self.program
    }

    /// The uniform bindings.
    pub fn uniforms(&self) -> (r: &UniformBuffer<U>)
        ensures
            r@ == self.spec_uniforms(),
    {
        &self.uniforms
    }

    /// The draw state for a target of the given size: the same identity and
    /// program, with `width` and `height` appended after the caller's
    /// bindings, so that they are the values the program observes.
    pub fn for_target(self, width: U, height: U) -> (r: Self)
        ensures
            r.spec_id() == self.spec_id(),
            r.spec_program() == self.spec_program(),
            r.spec_uniforms() == self.spec_uniforms().push((width_name(), width)).push(
                (height_name(), height),
            ),
    {
        let Shader { id, program, mut uniforms } = self;
        uniforms.push_dimensions(width, height);
        Shader { id, program, uniforms }
    }
}

} // verus!
