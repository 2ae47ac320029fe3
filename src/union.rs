//! Union-filesystem rules across image layers.
//!
//! Layers are consumed from the top of the image down. A path that an upper
//! layer already provided is not taken again from a lower one; an upper
//! layer's whiteout `dir/.wh.name` hides `dir/name` below it, and its opaque
//! marker `dir/.wh..wh..opq` hides everything below `dir` in lower layers.
//! Marker entries are recorded but never emitted themselves.

use vstd::prelude::*;

use crate::keyset::KeySet;
use crate::text::chars_of;

verus! {

/// A path as the sequence of its components.
pub type Key = Seq<Seq<char>>;

/// Adds a component unless it is empty or `.`.
pub open spec fn push_component(cs: Key, c: Seq<char>) -> Key {
    if c.len() == 0 || c == seq!['.'] {
        cs
    } else {
        cs.push(c)
    }
}

/// The components finished, and the one being read, after `s[0..i]`.
pub open spec fn scan_components(s: Seq<char>, i: int) -> (Key, Seq<char>)
    decreases i,
{
    if i <= 0 {
        (Seq::empty(), Seq::empty())
    } else {
        let (cs, cur) = scan_components(s, i - 1);
        if s[i - 1] == '/' {
            (push_component(cs, cur), Seq::empty())
        } else {
            (cs, cur.push(s[i - 1]))
        }
    }
}

/// The components of a `/`-separated path, without empty and `.` parts.
pub open spec fn components(s: Seq<char>) -> Key {
    let (cs, cur) = scan_components(s, s.len() as int);
    push_component(cs, cur)
}

/// The name of an opaque marker.
pub open spec fn opaque_name() -> Seq<char> {
    seq!['.', 'w', 'h', '.', '.', 'w', 'h', '.', '.', 'o', 'p', 'q']
}

/// The prefix of a whiteout name.
pub open spec fn whiteout_prefix() -> Seq<char> {
    seq!['.', 'w', 'h', '.']
}

/// The opaque marker inside directory `d`.
pub open spec fn opaque_of(d: Key) -> Key {
    d.push(opaque_name())
}

/// The whiteout that hides the non-empty path `p`: `.wh.` and its last
/// component, beside it.
pub open spec fn whiteout_of(p: Key) -> Key {
    p.drop_last().push(whiteout_prefix() + p.last())
}

/// Whether `p` is a marker entry: its last component starts with `.wh.`.
pub open spec fn is_marker(p: Key) -> bool {
    p.len() > 0 && p.last().len() >= 4 && p.last().subrange(0, 4) == whiteout_prefix()
}

/// What has been seen: paths of the layers already finished, and of the
/// layer being read.
pub struct SeenSets {
    pub done: Set<Key>,
    pub current: Set<Key>,
}

/// Whether an upper layer made `p` or one of its ancestors opaque.
pub open spec fn opaqued(done: Set<Key>, p: Key) -> bool {
    exists|n: int| 0 <= n <= p.len() && #[trigger] done.contains(opaque_of(p.subrange(0, n)))
}

/// Whether an upper layer whited out `p`.
pub open spec fn whited_out(done: Set<Key>, p: Key) -> bool {
    p.len() > 0 && done.contains(whiteout_of(p))
}

/// One entry of the layer being read: whether it is skipped, and the sets
/// afterwards. A path seen before, or hidden by an upper layer, is skipped
/// and not recorded; any other path is recorded, and skipped only when it
/// is a marker.
pub open spec fn skip_step(s: SeenSets, p: Key) -> (bool, SeenSets) {
    if s.done.contains(p) || s.current.contains(p) || opaqued(s.done, p) || whited_out(s.done, p) {
        (true, s)
    } else {
        (is_marker(p), SeenSets { done: s.done, current: s.current.insert(p) })
    }
}

/// The sets after the entries `ps` of one layer.
pub open spec fn feed(s: SeenSets, ps: Seq<Key>) -> SeenSets
    decreases ps.len(),
{
    if ps.len() == 0 {
        s
    } else {
        feed(skip_step(s, ps[0]).1, ps.drop_first())
    }
}

/// The sets once the layer being read is finished.
pub open spec fn finish(s: SeenSets) -> SeenSets {
    SeenSets { done: s.done.union(s.current), current: Set::empty() }
}

/// The sets after whole layers, each read and finished in turn.
pub open spec fn run(s: SeenSets, layers: Seq<Seq<Key>>) -> SeenSets
    decreases layers.len(),
{
    if layers.len() == 0 {
        s
    } else {
        run(finish(feed(s, layers[0])), layers.drop_first())
    }
}

proof fn lemma_feed_keeps(s: SeenSets, ps: Seq<Key>)
    ensures
        feed(s, ps).done == s.done,
        s.current.subset_of(feed(s, ps).current),
    decreases ps.len(),
{
    if ps.len() > 0 {
        lemma_feed_keeps(skip_step(s, ps[0]).1, ps.drop_first());
    }
}

/// Every entry of a layer that no upper layer hid is in the sets once the
/// layer has been read.
proof fn lemma_feed_records(s: SeenSets, ps: Seq<Key>, j: int)
    requires
        0 <= j < ps.len(),
        !opaqued(s.done, ps[j]),
        !whited_out(s.done, ps[j]),
    ensures
        feed(s, ps).current.contains(ps[j]) || s.done.contains(ps[j]),
    decreases ps.len(),
{
    let t = skip_step(s, ps[0]).1;
    if j == 0 {
        lemma_feed_keeps(t, ps.drop_first());
    } else {
        assert(ps[j] == ps.drop_first()[j - 1]);
        lemma_feed_records(t, ps.drop_first(), j - 1);
    }
}

proof fn lemma_run_grows(s: SeenSets, layers: Seq<Seq<Key>>)
    ensures
        s.done.subset_of(run(s, layers).done),
    decreases layers.len(),
{
    if layers.len() > 0 {
        lemma_feed_keeps(s, layers[0]);
        lemma_run_grows(finish(feed(s, layers[0])), layers.drop_first());
    }
}

proof fn lemma_run_split(s: SeenSets, layers: Seq<Seq<Key>>, i: int)
    requires
        0 <= i < layers.len(),
    ensures
        run(s, layers) == run(
            finish(feed(run(s, layers.take(i)), layers[i])),
            layers.skip(i + 1),
        ),
    decreases i,
{
    if i == 0 {
        assert(layers.take(0) == Seq::<Seq<Key>>::empty());
        assert(layers.skip(1) == layers.drop_first());
    } else {
        let t = finish(feed(s, layers[0]));
        lemma_run_split(t, layers.drop_first(), i - 1);
        assert(layers.drop_first().take(i - 1) == layers.take(i).drop_first());
        assert(layers.take(i)[0] == layers[0]);
        assert(layers.drop_first()[i - 1] == layers[i]);
        assert(layers.drop_first().skip(i) == layers.skip(i + 1));
    }
}

/// A marker read, and not itself hidden, in a finished layer is among the
/// finished paths from then on.
proof fn lemma_marker_kept(s: SeenSets, layers: Seq<Seq<Key>>, i: int, m: Key)
    requires
        0 <= i < layers.len(),
        layers[i].contains(m),
        !opaqued(run(s, layers.take(i)).done, m),
        !whited_out(run(s, layers.take(i)).done, m),
    ensures
        run(s, layers).done.contains(m),
{
    let u = run(s, layers.take(i));
    let j = choose|j: int| 0 <= j < layers[i].len() && layers[i][j] == m;
    lemma_feed_records(u, layers[i], j);
    lemma_feed_keeps(u, layers[i]);
    lemma_run_split(s, layers, i);
    lemma_run_grows(finish(feed(u, layers[i])), layers.skip(i + 1));
}

/// A path under a whiteout from a finished layer is skipped, and the sets
/// stay as they are.
pub proof fn lemma_whiteout_skips(s: SeenSets, p: Key)
    requires
        p.len() > 0,
        s.done.contains(whiteout_of(p)),
    ensures
        skip_step(s, p) == (true, s),
{
}

/// A path below a directory made opaque in a finished layer is skipped, and
/// the sets stay as they are.
pub proof fn lemma_opaque_skips(s: SeenSets, d: Key, p: Key)
    requires
        d.len() <= p.len(),
        p.subrange(0, d.len() as int) == d,
        s.done.contains(opaque_of(d)),
    ensures
        skip_step(s, p) == (true, s),
{
    assert(s.done.contains(opaque_of(p.subrange(0, d.len() as int))));
}

/// A whiteout read in a finished layer (and not itself hidden there) hides
/// its path in every layer read after it, wherever the path comes in that
/// layer, leaving the sets unchanged.
pub proof fn lemma_whiteout_hides(
    s: SeenSets,
    layers: Seq<Seq<Key>>,
    i: int,
    before: Seq<Key>,
    p: Key,
)
    requires
        0 <= i < layers.len(),
        p.len() > 0,
        layers[i].contains(whiteout_of(p)),
        !opaqued(run(s, layers.take(i)).done, whiteout_of(p)),
        !whited_out(run(s, layers.take(i)).done, whiteout_of(p)),
    ensures
        skip_step(feed(run(s, layers), before), p) == (true, feed(run(s, layers), before)),
{
    lemma_marker_kept(s, layers, i, whiteout_of(p));
    lemma_feed_keeps(run(s, layers), before);
    lemma_whiteout_skips(feed(run(s, layers), before), p);
}

/// An opaque marker read in a finished layer (and not itself hidden there)
/// hides everything below its directory in every layer read after it,
/// leaving the sets unchanged.
pub proof fn lemma_opaque_hides(
    s: SeenSets,
    layers: Seq<Seq<Key>>,
    i: int,
    before: Seq<Key>,
    d: Key,
    p: Key,
)
    requires
        0 <= i < layers.len(),
        layers[i].contains(opaque_of(d)),
        !opaqued(run(s, layers.take(i)).done, opaque_of(d)),
        !whited_out(run(s, layers.take(i)).done, opaque_of(d)),
        d.len() < p.len(),
        p.subrange(0, d.len() as int) == d,
    ensures
        skip_step(feed(run(s, layers), before), p) == (true, feed(run(s, layers), before)),
{
    lemma_marker_kept(s, layers, i, opaque_of(d));
    lemma_feed_keeps(run(s, layers), before);
    lemma_opaque_skips(feed(run(s, layers), before), d, p);
}

/// An entry that no upper layer provided, hid or made opaque, and that is
/// no marker, is emitted the first time its layer holds it.
pub proof fn lemma_fresh_entry_kept(s: SeenSets, p: Key)
    requires
        !s.done.contains(p),
        !s.current.contains(p),
        !opaqued(s.done, p),
        !whited_out(s.done, p),
        !is_marker(p),
    ensures
        !skip_step(s, p).0,
        skip_step(s, p).1.current.contains(p),
{
}

/// The path a vector of components stands for.
pub open spec fn key_view(k: Vec<Vec<char>>) -> Key {
    Seq::new(k@.len(), |i: int| k@[i]@)
}

/// Splits a `/`-separated path into its components, leaving out empty and
/// `.` parts.
pub fn split_components(s: &str) -> (r: Vec<Vec<char>>)
    ensures
        key_view(r) == components(s@),
{
    let cs = chars_of(s);
    let mut out: Vec<Vec<char>> = Vec::new();
    let mut cur: Vec<char> = Vec::new();
    let mut i: usize = 0;
    while i < cs.len()
        invariant
            i <= cs@.len(),
            cs@ == s@,
            (key_view(out), cur@) == scan_components(s@, i as int),
        decreases cs@.len() - i,
    {
        if cs[i] == '/' {
            push_part(&mut out, cur);
            cur = Vec::new();
        } else {
            cur.push(cs[i]);
        }
        i = i + 1;
    }
    push_part(&mut out, cur);
    out
}

fn push_part(out: &mut Vec<Vec<char>>, cur: Vec<char>)
    ensures
        key_view(*final(out)) == push_component(key_view(*old(out)), cur@),
{
    let dot = cur.len() == 1 && cur[0] == '.';
    proof {
        if cur@.len() == 1 && cur@[0] == '.' {
            assert(cur@ =~= seq!['.']);
        }
    }
    if cur.len() != 0 && !dot {
        out.push(cur);
        assert(key_view(*out) =~= key_view(*old(out)).push(cur@));
    }
}

fn copy_key(k: &Vec<Vec<char>>, n: usize) -> (r: Vec<Vec<char>>)
    requires
        n <= k@.len(),
    ensures
        key_view(r) == key_view(*k).subrange(0, n as int),
{
    let mut out: Vec<Vec<char>> = Vec::new();
    let mut i: usize = 0;
    while i < n
        invariant
            i <= n <= k@.len(),
            key_view(out) == key_view(*k).subrange(0, i as int),
        decreases n - i,
    {
        let part = crate::text::slice_of(k[i].as_slice(), 0, k[i].len());
        proof { assert(k@[i as int]@.subrange(0, k@[i as int]@.len() as int) == k@[i as int]@); }
        let ghost prev = out;
        assert(key_view(prev).len() == prev@.len());
        out.push(part);
        assert forall|j: int| 0 <= j <= i implies #[trigger] key_view(out)[j] == key_view(*k)[j] by {
            if j < i {
                assert(out@[j] == prev@[j]);
                assert(key_view(prev)[j] == key_view(*k).subrange(0, i as int)[j]);
            }
        }
        assert(key_view(out) =~= key_view(*k).subrange(0, i + 1));
        i = i + 1;
    }
    out
}

fn opaque_chars() -> (r: Vec<char>)
    ensures
        r@ == opaque_name(),
{
    vec!['.', 'w', 'h', '.', '.', 'w', 'h', '.', '.', 'o', 'p', 'q']
}

fn whiteout_chars() -> (r: Vec<char>)
    ensures
        r@ == whiteout_prefix(),
{
    vec!['.', 'w', 'h', '.']
}

/// The paths seen so far while reading layers from the top down.
pub struct Seen {
    done: KeySet,
    current: KeySet,
}

impl Seen {
    #[verifier::type_invariant]
    spec fn inv(&self) -> bool {
        self.done.wf() && self.current.wf()
    }

    /// The sets of paths, as the union rules speak of them.
    pub closed spec fn sets(&self) -> SeenSets {
        SeenSets { done: self.done.view(), current: self.current.view() }
    }

    /// Nothing seen yet.
    pub fn new() -> (r: Seen)
        ensures
            r.sets().done == Set::<Key>::empty(),
            r.sets().current == Set::<Key>::empty(),
    {
        Seen { done: KeySet::new(), current: KeySet::new() }
    }

    /// Whether `path` was seen in a finished layer or in the current one.
    pub fn seen(&self, path: &str) -> (r: bool)
        ensures
            r == (self.sets().done.contains(components(path@)) || self.sets().current.contains(
                components(path@),
            )),
    {
        proof { use_type_invariant(self); }
        let k = split_components(path);
        self.done.contains(&k) || self.current.contains(&k)
    }

    fn opaqued_exec(&self, k: &Vec<Vec<char>>) -> (r: bool)
        ensures
            r == opaqued(self.sets().done, key_view(*k)),
    {
        proof { use_type_invariant(self); }
        let mut n: usize = 0;
        loop
            invariant
                n <= k@.len(),
                self.done.wf(),
                forall|m: int|
                    0 <= m < n ==> !#[trigger] self.done.view().contains(
                        opaque_of(key_view(*k).subrange(0, m)),
                    ),
            decreases k@.len() - n,
        {
            let mut probe = copy_key(k, n);
            let ghost prefix = probe;
            assert(key_view(prefix).len() == prefix@.len());
            assert(prefix@.len() == n);
            probe.push(opaque_chars());
            assert forall|j: int| 0 <= j < n implies #[trigger] key_view(probe)[j] == key_view(
                prefix,
            )[j] by {
                assert(probe@[j] == prefix@[j]);
            }
            assert(key_view(probe) =~= opaque_of(key_view(*k).subrange(0, n as int)));
            if self.done.contains(&probe) {
                return true;
            }
            if n == k.len() {
                return false;
            }
            n = n + 1;
        }
    }

    fn whited_out_exec(&self, k: &Vec<Vec<char>>) -> (r: bool)
        ensures
            r == whited_out(self.sets().done, key_view(*k)),
    {
        proof { use_type_invariant(self); }
        if k.len() == 0 {
            return false;
        }
        let last = k.len() - 1;
        let mut probe = copy_key(k, last);
        let mut name = whiteout_chars();
        crate::text::append_chars(&mut name, k[last].as_slice());
        let ghost prefix = probe;
        assert(key_view(prefix).len() == prefix@.len());
        assert(prefix@.len() == last);
        probe.push(name);
        assert forall|j: int| 0 <= j < last implies #[trigger] key_view(probe)[j] == key_view(
            prefix,
        )[j] by {
            assert(probe@[j] == prefix@[j]);
        }
        assert(key_view(probe) =~= whiteout_of(key_view(*k)));
        self.done.contains(&probe)
    }

    fn marker_exec(k: &Vec<Vec<char>>) -> (r: bool)
        ensures
            r == is_marker(key_view(*k)),
    {
        if k.len() == 0 {
            return false;
        }
        let last = &k[k.len() - 1];
        if last.len() < 4 {
            return false;
        }
        let head = crate::text::slice_of(last.as_slice(), 0, 4);
        crate::text::same_chars(head.as_slice(), whiteout_chars().as_slice())
    }

    /// Says whether the entry `path` of the layer being read is skipped: an
    /// upper layer or this one already gave it, an upper layer hid it or made
    /// an ancestor opaque, or it is itself a marker. Paths that are not
    /// hidden are recorded; hidden ones leave the sets unchanged.
    pub fn skip(&mut self, path: &str) -> (r: bool)
        ensures
            (r, final(self).sets()) == skip_step(old(self).sets(), components(path@)),
    {
        proof { use_type_invariant(&*self); }
        let k = split_components(path);
        if self.done.contains(&k) || self.current.contains(&k) || self.opaqued_exec(&k)
            || self.whited_out_exec(&k) {
            return true;
        }
        let marker = Seen::marker_exec(&k);
        let mut current = KeySet::new();
        std::mem::swap(&mut current, &mut self.current);
        current.insert(k);
        std::mem::swap(&mut current, &mut self.current);
        marker
    }

    /// Ends the layer being read: its paths join those of finished layers.
    pub fn finish_layer(&mut self)
        ensures
            final(self).sets() == finish(old(self).sets()),
    {
        proof { use_type_invariant(&*self); }
        let mut done = KeySet::new();
        let mut current = KeySet::new();
        std::mem::swap(&mut done, &mut self.done);
        std::mem::swap(&mut current, &mut self.current);
        done.absorb(&mut current);
        std::mem::swap(&mut done, &mut self.done);
        std::mem::swap(&mut current, &mut self.current);
    }
}

} // verus!
