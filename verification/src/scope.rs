//! Scope values and the lexically scoped symbol table.
//!
//! A `ScopeData` is a chain of frames: the first frame is the document's
//! top-level scope, the last is the innermost open block.  A binding is
//! defined in the innermost frame only; lookup walks the chain outward, so
//! an inner binding shadows but never mutates an outer one.

use vstd::prelude::*;

verus! {

/// A fully resolved color with one byte per channel.
#[derive(Clone, Copy, PartialEq, Eq, Structural, Debug)]
pub struct PlainColor {
    pub r: u8,
    pub g: u8,
    pub b: u8,
    pub a: u8,
}

/// A fully resolved scalar value: the result of resolving a leaf node.
#[derive(Debug)]
pub enum ScopeValue {
    Num(i64),
    Str(String),
    Col(PlainColor),
}

/// Mathematical model of a `ScopeValue`.
pub enum ValueV {
    Num(i64),
    Str(Seq<char>),
    Col(PlainColor),
}

impl DeepView for ScopeValue {
    type V = ValueV;

    open spec fn deep_view(&self) -> ValueV {
        match self {
            ScopeValue::Num(n) => ValueV::Num(*n),
            ScopeValue::Str(s) => ValueV::Str(s@),
            ScopeValue::Col(c) => ValueV::Col(*c),
        }
    }
}

impl Clone for ScopeValue {
    /// Cloning preserves the value's model.
    fn clone(&self) -> (r: Self)
        ensures
            r.deep_view() == self.deep_view(),
    {
        match self {
            ScopeValue::Num(n) => ScopeValue::Num(*n),
            ScopeValue::Str(s) => ScopeValue::Str(s.clone()),
            ScopeValue::Col(c) => ScopeValue::Col(*c),
        }
    }
}

/// One frame of bindings; later entries shadow earlier ones of the same name.
pub type Frame = Vec<(String, ScopeValue)>;

/// The bindings a frame holds, as a map from name to value.
pub open spec fn frame_map(frame: Seq<(Seq<char>, ValueV)>) -> Map<Seq<char>, ValueV>
    decreases frame.len(),
{
    if frame.len() == 0 {
        Map::empty()
    } else {
        frame_map(frame.drop_last()).insert(frame.last().0, frame.last().1)
    }
}

/// Lookup over a chain of frame maps: the innermost (last) frame wins; on a
/// miss the search continues outward; an empty chain yields `None`.
pub open spec fn chain_lookup(chain: Seq<Map<Seq<char>, ValueV>>, name: Seq<char>) -> Option<ValueV>
    decreases chain.len(),
{
    if chain.len() == 0 {
        None
    } else if chain.last().contains_key(name) {
        Some(chain.last()[name])
    } else {
        chain_lookup(chain.drop_last(), name)
    }
}

/// The lexically scoped symbol table: a non-empty stack of frames whose
/// first frame is the document's top-level scope.
pub struct ScopeData {
    pub frames: Vec<Frame>,
}

impl ScopeData {
    /// The chain of frame maps this table currently holds.
    pub open spec fn chain(&self) -> Seq<Map<Seq<char>, ValueV>> {
        self.frames.deep_view().map_values(|f: Seq<(Seq<char>, ValueV)>| frame_map(f))
    }

    /// How many frames are open.
    pub open spec fn depth(&self) -> nat {
        self.frames@.len()
    }

    /// A scope chain is well formed when at least the top-level frame exists.
    pub open spec fn wf(&self) -> bool {
        self.depth() >= 1
    }

    /// A fresh table holding only an empty top-level scope.
    pub fn new() -> (r: ScopeData)
        ensures
            r.wf(),
            r.chain() =~= seq![Map::<Seq<char>, ValueV>::empty()],
    {
        let mut frames: Vec<Frame> = Vec::new();
        frames.push(Vec::new());
        ScopeData { frames }
    }

    /// Opens a child scope under the current innermost scope.
    pub fn push_child(&mut self)
        ensures
            final(self).chain() =~= old(self).chain().push(Map::empty()),
            final(self).depth() == old(self).depth() + 1,
    {
        self.frames.push(Vec::new());
    }

    /// Discards the innermost scope, ending a block.
    pub fn pop_child(&mut self)
        requires
            old(self).depth() >= 1,
        ensures
            final(self).chain() =~= old(self).chain().drop_last(),
            final(self).depth() == old(self).depth() - 1,
    {
        let _ = self.frames.pop();
        proof {
            assert(self.frames.deep_view() =~= old(self).frames.deep_view().drop_last());
        }
    }

    /// Defines (or overwrites) a binding in the innermost scope only.
    pub fn define(&mut self, name: String, value: ScopeValue)
        requires
            old(self).wf(),
        ensures
            final(self).depth() == old(self).depth(),
            final(self).chain() =~= old(self).chain().update(
                old(self).chain().len() - 1,
                old(self).chain().last().insert(name@, value.deep_view()),
            ),
    {
        let ghost p = (name@, value.deep_view());
        let ghost n = old(self).frames@.len() - 1;
        let ghost dvn = old(self).frames@[n].deep_view();
        let mut frame = self.frames.pop().unwrap();
        frame.push((name, value));
        self.frames.push(frame);
        proof {
            assert(self.frames@[n]@ =~= old(self).frames@[n]@.push((name, value)));
            assert(self.frames@[n].deep_view() =~= dvn.push(p));
            assert(self.frames.deep_view() =~= old(self).frames.deep_view().update(
                n,
                dvn.push(p),
            ));
            assert(dvn.push(p).drop_last() =~= dvn);
            assert(frame_map(dvn.push(p)) == frame_map(dvn).insert(name@, value.deep_view()));
            assert(old(self).chain().last() == frame_map(dvn));
            assert(self.chain() =~= old(self).chain().update(
                n,
                frame_map(dvn).insert(name@, value.deep_view()),
            ));
        }
    }

    /// The scope an imported document is resolved at: a fresh child of
    /// this compilation's top-level scope, so that imports are independent
    /// of every block-local binding of the importer.
    pub fn import_scope(&self) -> (r: ScopeData)
        requires
            self.wf(),
        ensures
            r.wf(),
            r.depth() == 2,
            r.chain() =~= seq![self.chain()[0], Map::<Seq<char>, ValueV>::empty()],
    {
        let root = clone_frame(&self.frames[0]);
        let ghost root_dv = root.deep_view();
        let mut frames: Vec<Frame> = Vec::new();
        frames.push(root);
        let mut r = ScopeData { frames };
        proof {
            assert(r.frames.deep_view() =~= seq![root_dv]);
            assert(self.chain()[0] == frame_map(self.frames@[0].deep_view()));
            assert(r.chain() =~= seq![self.chain()[0]]);
        }
        r.push_child();
        r
    }

    /// Looks a name up, innermost scope first, walking the chain outward.
    /// Returns `None` when no enclosing scope binds the name; never mutates.
    pub fn lookup(&self, name: &String) -> (r: Option<ScopeValue>)
        requires
            self.wf(),
        ensures
            r.deep_view() == chain_lookup(self.chain(), name@),
    {
        let mut i = self.frames.len();
        proof {
            assert(self.chain().take(self.frames@.len() as int) =~= self.chain());
        }
        while i > 0
            invariant
                i <= self.frames@.len(),
                self.wf(),
                chain_lookup(self.chain(), name@)
                    == chain_lookup(self.chain().take(i as int), name@),
            decreases i,
        {
            i = i - 1;
            let frame = &self.frames[i];
            let found = frame_get(frame, name);
            proof {
                lemma_frame_get_map(frame.deep_view(), name@);
                assert(self.chain().take(i + 1).last() == frame_map(frame.deep_view()));
                assert(self.chain().take(i + 1).drop_last() =~= self.chain().take(i as int));
            }
            match found {
                Some(v) => {
                    return Some(v);
                },
                None => {},
            }
        }
        proof {
            assert(self.chain().take(0) =~= Seq::<Map<Seq<char>, ValueV>>::empty());
        }
        None
    }
}

/// Scans one frame from its newest entry backward for a name.
fn frame_get(frame: &Frame, name: &String) -> (r: Option<ScopeValue>)
    ensures
        r.deep_view() == frame_lookup(frame.deep_view(), name@),
{
    let mut i = frame.len();
    proof {
        assert(frame.deep_view().take(frame@.len() as int) =~= frame.deep_view());
    }
    while i > 0
        invariant
            i <= frame@.len(),
            frame_lookup(frame.deep_view(), name@)
                == frame_lookup(frame.deep_view().take(i as int), name@),
        decreases i,
    {
        i = i - 1;
        proof {
            assert(frame.deep_view().take(i + 1).drop_last() =~= frame.deep_view().take(i as int));
        }
        if string_eq(&frame[i].0, name) {
            let v = frame[i].1.clone();
            return Some(v);
        }
    }
    None
}

/// Lookup over one frame, as a sequence scanned from its newest entry.
pub open spec fn frame_lookup(frame: Seq<(Seq<char>, ValueV)>, name: Seq<char>) -> Option<ValueV>
    decreases frame.len(),
{
    if frame.len() == 0 {
        None
    } else if frame.last().0 == name {
        Some(frame.last().1)
    } else {
        frame_lookup(frame.drop_last(), name)
    }
}

/// Scanning a frame backward agrees with its map: the newest entry wins.
pub proof fn lemma_frame_get_map(frame: Seq<(Seq<char>, ValueV)>, name: Seq<char>)
    ensures
        frame_lookup(frame, name) == (if frame_map(frame).contains_key(name) {
            Some(frame_map(frame)[name])
        } else {
            Option::<ValueV>::None
        }),
    decreases frame.len(),
{
    if frame.len() > 0 {
        lemma_frame_get_map(frame.drop_last(), name);
    }
}

/// Duplicates a frame; the copy holds the same bindings.
fn clone_frame(f: &Frame) -> (r: Frame)
    ensures
        r.deep_view() =~= f.deep_view(),
{
    let mut r: Frame = Vec::new();
    let mut i: usize = 0;
    while i < f.len()
        invariant
            i <= f@.len(),
            r.deep_view() =~= f.deep_view().take(i as int),
        decreases f@.len() - i,
    {
        let name = f[i].0.clone();
        let value = f[i].1.clone();
        let ghost prev = r.deep_view();
        let ghost pair_dv = (name@, value.deep_view());
        r.push((name, value));
        proof {
            assert(r.deep_view() =~= prev.push(pair_dv));
            assert(name@ == f@[i as int].0@);
            assert(value.deep_view() == f@[i as int].1.deep_view());
            assert(f.deep_view()[i as int] == (f@[i as int].0@, f@[i as int].1.deep_view()));
            assert(pair_dv == f.deep_view()[i as int]);
            assert(f.deep_view().take(i + 1) =~= f.deep_view().take(i as int).push(
                f.deep_view()[i as int],
            ));
            assert(r.deep_view() =~= f.deep_view().take(i + 1));
        }
        i = i + 1;
    }
    proof {
        assert(f.deep_view().take(f@.len() as int) =~= f.deep_view());
    }
    r
}

/// Compares two strings by contents.
pub(crate) fn string_eq(a: &String, b: &String) -> (r: bool)
    ensures
        r == (a@ == b@),
{
    a.eq(b)
}

} // verus!
