//! Ordered uniform bindings handed to a shader program.
use vstd::prelude::*;

verus! {

/// Name of the uniform that holds the target width in pixels.
pub open spec fn width_name() -> Seq<char> {
    seq!['w', 'i', 'd', 't', 'h']
}

/// Name of the uniform that holds the target height in pixels.
pub open spec fn height_name() -> Seq<char> {
    seq!['h', 'e', 'i', 'g', 'h', 't']
}

/// The value a program observes for `name`: the last binding of that name.
pub open spec fn last_binding<U>(b: Seq<(Seq<char>, U)>, name: Seq<char>) -> Option<U>
    decreases b.len(),
{
    if b.len() == 0 {
        None
    } else if b.last().0 == name {
        Some(b.last().1)
    } else {
        last_binding(b.drop_last(), name)
    }
}

/// An ordered association list of `(name, value)` uniform bindings.
///
/// Duplicate names are allowed; the last binding of a name is the one a
/// program observes. The list only grows.
pub struct UniformBuffer<U> {
    uniforms: Vec<(String, U)>,
}

impl<U> View for UniformBuffer<U> {
    type V = Seq<(Seq<char>, U)>;

    closed spec fn view(&self) -> Seq<(Seq<char>, U)> {
        self.uniforms@.map_values(|p: (String, U)| (p.0@, p.1))
    }
}

impl<U> UniformBuffer<U> {
    /// An empty buffer.
    pub fn new() -> (r: Self)
        ensures
            r@ == Seq::<(Seq<char>, U)>::empty(),
    {
        let r = UniformBuffer { uniforms: Vec::new() };
        assert(r@ =~= Seq::<(Seq<char>, U)>::empty());
        r
    }

    /// Appends a binding, without deduplication or reordering.
    pub fn push(&mut self, name: String, value: U)
        ensures
            final(self)@ == old(self)@.push((name@, value)),
    {
        let ghost name_view = name@;
        self.uniforms.push((name, value));
        assert(self@ =~= old(self)@.push((name_view, value)));
    }

    /// Number of bindings.
    pub fn len(&self) -> (r: usize)
        ensures
            r == self@.len(),
    {
        self.uniforms.len()
    }

    /// The `i`-th binding in insertion order.
    pub fn binding(&self, i: usize) -> (r: (&String, &U))
        requires
            i < self@.len(),
        ensures
            r.0@ == self@[i as int].0,
            *r.1 == self@[i as int].1,
    {
        let p = &self.uniforms[i];
        (&p.0, &p.1)
    }

    /// The value bound last to `name`, if any.
    pub fn lookup(&self, name: &String) -> (r: Option<&U>)
        ensures
            match r {
                Some(v) => last_binding(self@, name@) == Some(*v),
                None => last_binding(self@, name@).is_none(),
            },
    {
        let mut i: usize = self.uniforms.len();
        assert(self@.subrange(0, i as int) =~= self@);
        while i > 0
            invariant
                i <= self@.len(),
                last_binding(self@, name@) == last_binding(self@.subrange(0, i as int), name@),
            decreases i,
        {
            let p = &self.uniforms[i - 1];
            assert(self@.subrange(0, i as int).drop_last() =~= self@.subrange(0, i - 1));
            if p.0 == *name {
                return Some(&p.1);
            }
            i = i - 1;
        }
        assert(self@.subrange(0, 0) =~= Seq::<(Seq<char>, U)>::empty());
        None
    }

    /// Appends the target dimensions as `width` then `height`.
    ///
    /// They come after every earlier binding, so they are the values a
    /// program observes for those names, whatever the caller bound before.
    pub fn push_dimensions(&mut self, width: U, height: U)
        ensures
            final(self)@ == old(self)@.push((width_name(), width)).push((height_name(), height)),
            last_binding(final(self)@, width_name()) == Some(width),
            last_binding(final(self)@, height_name()) == Some(height),
    {
        let w = "width".to_owned();
        let h = "height".to_owned();
        proof {
            reveal_strlit("width");
            reveal_strlit("height");
            assert(w@ =~= width_name());
            assert(h@ =~= height_name());
        }
        self.push(w, width);
        self.push(h, height);
        assert(self@.drop_last() =~= old(self)@.push((width_name(), width)));
        assert(self@.last().0.len() != width_name().len());
        assert(last_binding(self@.drop_last(), width_name()) == Some(width));
        assert(last_binding(self@, width_name()) == last_binding(self@.drop_last(), width_name()));
    }
}

} // verus!
