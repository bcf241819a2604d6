//! The face registry: named visual styles with stable integer handles.
//!
//! A `Face` describes how a character is drawn. The registry `Faces` owns an
//! ordered collection of faces, hands out `usize` handles (face ids) for
//! them, and keeps a name-to-id binding. A marked subset of ids is
//! theme-managed: a theme load rebinds those slots in place, so any face id
//! already stored elsewhere (for example in a grid cell) keeps pointing at a
//! live slot.

use vstd::prelude::*;

verus! {

/// A color a face draws with: either inherited from the renderer's defaults
/// or an explicit 8-bit-per-channel RGB triple.
#[derive(Clone, Copy, PartialEq, Eq, Structural, Debug)]
pub enum FaceColor {
    Inherit,
    Rgb(u8, u8, u8),
}

/// A visual style: a foreground and a background color. Equality is
/// structural.
#[derive(Clone, Copy, PartialEq, Eq, Structural, Debug)]
pub struct Face {
    pub fg: FaceColor,
    pub bg: FaceColor,
}

impl Default for Face {
    /// The default face: white text on a black background.
    fn default() -> (f: Face)
        ensures
            f == (Face { fg: FaceColor::Rgb(255, 255, 255), bg: FaceColor::Rgb(0, 0, 0) }),
    {
        Face { fg: FaceColor::Rgb(255, 255, 255), bg: FaceColor::Rgb(0, 0, 0) }
    }
}

impl Face {
    /// The sentinel face for lookups that fail: an attention-drawing
    /// combination, so that a stale or unknown face id is visible rather
    /// than fatal.
    pub fn invalid() -> (f: Face)
        ensures
            f == (Face { fg: FaceColor::Rgb(255, 255, 255), bg: FaceColor::Rgb(255, 0, 0) }),
    {
        Face { fg: FaceColor::Rgb(255, 255, 255), bg: FaceColor::Rgb(255, 0, 0) }
    }
}

/// The abstract state of a registry: the face slots, the name-to-id
/// binding, and the ordered list of theme-managed ids.
pub struct FacesView {
    pub faces: Seq<Face>,
    pub ids: Map<Seq<char>, int>,
    pub theme: Seq<int>,
}

impl FacesView {
    /// Abstract well-formedness: every bound id and every theme-managed id
    /// names a real slot, distinct names are bound to distinct ids, and the
    /// theme-managed ids are pairwise distinct.
    pub open spec fn wf(self) -> bool {
        &&& forall|n: Seq<char>| #[trigger] self.ids.contains_key(n)
            ==> 0 <= self.ids[n] < self.faces.len()
        &&& forall|n1: Seq<char>, n2: Seq<char>|
            #![trigger self.ids[n1], self.ids[n2]]
            self.ids.contains_key(n1) && self.ids.contains_key(n2) && n1 != n2
                ==> self.ids[n1] != self.ids[n2]
        &&& forall|i: int| 0 <= i < self.theme.len()
            ==> 0 <= (#[trigger] self.theme[i]) < self.faces.len()
        &&& forall|i: int, j: int|
            #![trigger self.theme[i], self.theme[j]]
            0 <= i < j < self.theme.len() ==> self.theme[i] != self.theme[j]
    }
}

/// No name occurs twice in the association list.
pub open spec fn keys_unique(s: Seq<(String, usize)>) -> bool {
    forall|i: int, j: int|
        #![trigger s[i], s[j]]
        0 <= i < j < s.len() ==> s[i].0@ != s[j].0@
}

/// The finite map an association list denotes (later pairs win).
pub open spec fn assoc_map(s: Seq<(String, usize)>) -> Map<Seq<char>, int>
    decreases s.len(),
{
    if s.len() == 0 {
        Map::empty()
    } else {
        assoc_map(s.drop_last()).insert(s.last().0@, s.last().1 as int)
    }
}

/// A list of ids, as mathematical integers.
pub open spec fn ids_seq(s: Seq<usize>) -> Seq<int> {
    s.map_values(|x: usize| x as int)
}

/// With unique keys, each pair of the list is visible in the denoted map.
pub proof fn lemma_assoc_map_index(s: Seq<(String, usize)>, i: int)
    requires
        keys_unique(s),
        0 <= i < s.len(),
    ensures
        assoc_map(s).contains_key(s[i].0@),
        assoc_map(s)[s[i].0@] == s[i].1 as int,
    decreases s.len(),
{
    if i < s.len() - 1 {
        assert(keys_unique(s.drop_last()));
        lemma_assoc_map_index(s.drop_last(), i);
        assert(s.drop_last()[i] == s[i]);
        assert(s[i].0@ != s.last().0@);
    }
}

/// Every key of the denoted map comes from some pair of the list.
pub proof fn lemma_assoc_map_contains(s: Seq<(String, usize)>, k: Seq<char>)
    requires
        assoc_map(s).contains_key(k),
    ensures
        exists|i: int| 0 <= i < s.len() && (#[trigger] s[i]).0@ == k,
    decreases s.len(),
{
    if s.len() > 0 {
        if s.last().0@ == k {
            assert(s[s.len() - 1].0@ == k);
        } else {
            lemma_assoc_map_contains(s.drop_last(), k);
            let i = choose|i: int| 0 <= i < s.drop_last().len() && (#[trigger] s.drop_last()[i]).0@ == k;
            assert(s[i].0@ == k);
        }
    }
}

/// The registry of named faces.
pub struct Faces {
    theme_face_ids: Vec<usize>,
    faces: Vec<Face>,
    // Binds face names to face ids (indices into `faces`); names are unique.
    face_ids: Vec<(String, usize)>,
}

impl View for Faces {
    type V = FacesView;

    closed spec fn view(&self) -> FacesView {
        FacesView {
            faces: self.faces@,
            ids: assoc_map(self.face_ids@),
            theme: ids_seq(self.theme_face_ids@),
        }
    }
}

impl Faces {
    /// Representation invariant: unique names in the association list, and a
    /// well-formed abstract state.
    pub closed spec fn wf(&self) -> bool {
        &&& keys_unique(self.face_ids@)
        &&& self@.wf()
    }

    /// A well-formed registry has a well-formed abstract state.
    pub proof fn lemma_wf_view(&self)
        requires
            self.wf(),
        ensures
            self@.wf(),
    {
    }

    /// An empty registry: no faces, no bindings, no theme-managed slots.
    pub fn new() -> (r: Faces)
        ensures
            r.wf(),
            r@.faces == Seq::<Face>::empty(),
            r@.ids == Map::<Seq<char>, int>::empty(),
            r@.theme == Seq::<int>::empty(),
    {
        Faces { theme_face_ids: Vec::new(), faces: Vec::new(), face_ids: Vec::new() }
    }

    /// The id a name is bound to, if any.
    pub fn get_face_id(&self, name: &String) -> (r: Option<usize>)
        requires
            self.wf(),
        ensures
            match r {
                Some(id) => self@.ids.contains_key(name@) && id == self@.ids[name@],
                None => !self@.ids.contains_key(name@),
            },
    {
        let n = self.face_ids.len();
        let mut i: usize = 0;
        while i < n
            invariant
                self.wf(),
                n == self.face_ids.len(),
                i <= n,
                forall|j: int| 0 <= j < i ==> (#[trigger] self.face_ids@[j]).0@ != name@,
            decreases n - i,
        {
            if self.face_ids[i].0 == *name {
                proof {
                    lemma_assoc_map_index(self.face_ids@, i as int);
                }
                return Some(self.face_ids[i].1);
            }
            i += 1;
        }
        proof {
            if self@.ids.contains_key(name@) {
                lemma_assoc_map_contains(self.face_ids@, name@);
            }
        }
        None
    }

    /// The face a name is bound to, if any. A caller that needs a face for
    /// an unbound name falls back to `Face::invalid()` rather than failing.
    pub fn get_face_by_name(&self, name: &String) -> (r: Option<&Face>)
        requires
            self.wf(),
        ensures
            match r {
                Some(f) => self@.ids.contains_key(name@) && *f == self@.faces[self@.ids[name@]],
                None => !self@.ids.contains_key(name@),
            },
    {
        match self.get_face_id(name) {
            Some(id) => Some(&self.faces[id]),
            None => None,
        }
    }

    /// The face stored in a slot, if the slot exists.
    pub fn get_face_by_id(&self, id: usize) -> (r: Option<&Face>)
        ensures
            match r {
                Some(f) => id < self@.faces.len() && *f == self@.faces[id as int],
                None => id >= self@.faces.len(),
            },
    {
        if id < self.faces.len() {
            Some(&self.faces[id])
        } else {
            None
        }
    }

    /// How many face slots exist.
    pub fn face_count(&self) -> (n: usize)
        ensures
            n == self@.faces.len(),
    {
        self.faces.len()
    }
}

/// The id `put_face` returns: the existing binding's id for a known name, a
/// fresh slot for a new one.
pub open spec fn spec_put_id(v: FacesView, name: Seq<char>) -> int {
    if v.ids.contains_key(name) {
        v.ids[name]
    } else {
        v.faces.len() as int
    }
}

/// The registry state after `put_face`: an idempotent upsert. A known name
/// keeps its id and has its slot overwritten; a new name is bound to a
/// freshly appended slot.
pub open spec fn spec_put_face(v: FacesView, name: Seq<char>, face: Face) -> FacesView {
    if v.ids.contains_key(name) {
        FacesView { faces: v.faces.update(v.ids[name], face), ids: v.ids, theme: v.theme }
    } else {
        FacesView {
            faces: v.faces.push(face),
            ids: v.ids.insert(name, v.faces.len() as int),
            theme: v.theme,
        }
    }
}

impl Faces {
    /// Register a face under a name, or update the face a name already
    /// carries; either way the name's id is stable and returned.
    pub fn put_face(&mut self, name: String, face: Face) -> (id: usize)
        requires
            old(self).wf(),
        ensures
            final(self).wf(),
            id == spec_put_id(old(self)@, name@),
            final(self)@ == spec_put_face(old(self)@, name@, face),
    {
        match self.get_face_id(&name) {
            Some(id) => {
                self.faces.set(id, face);
                proof {
                    assert(keys_unique(self.face_ids@));
                    assert(self@.ids == old(self)@.ids);
                    assert(self@.faces.len() == old(self)@.faces.len());
                    assert(self@.theme == old(self)@.theme);
                    assert(old(self)@.wf());
                    assert(forall|n: Seq<char>| #[trigger] self@.ids.contains_key(n)
                        ==> self@.ids[n] < self@.faces.len());
                    assert(forall|n1: Seq<char>, n2: Seq<char>|
                        #![trigger self@.ids[n1], self@.ids[n2]]
                        self@.ids.contains_key(n1) && self@.ids.contains_key(n2) && n1 != n2
                            ==> self@.ids[n1] != self@.ids[n2]);
                    assert(forall|i: int| 0 <= i < self@.theme.len()
                        ==> (#[trigger] self@.theme[i]) < self@.faces.len());
                    assert(self@.wf());
                }
                id
            },
            None => {
                let id = self.faces.len();
                self.faces.push(face);
                self.face_ids.push((name, id));
                proof {
                    assert(self.face_ids@.drop_last() =~= old(self).face_ids@);
                    assert forall|i: int, j: int| 0 <= i < j < self.face_ids@.len() implies
                        (#[trigger] self.face_ids@[i]).0@ != (#[trigger] self.face_ids@[j]).0@ by {
                        if j == self.face_ids@.len() - 1 {
                            lemma_assoc_map_index(old(self).face_ids@, i);
                        }
                    }
                    assert(self@.ids == old(self)@.ids.insert(name@, id as int));
                    assert(self@.theme == old(self)@.theme);
                    assert(self@.faces.len() == old(self)@.faces.len() + 1);
                    assert(old(self)@.wf());
                    assert(forall|n: Seq<char>| #[trigger] self@.ids.contains_key(n)
                        ==> self@.ids[n] < self@.faces.len());
                    assert(forall|n1: Seq<char>, n2: Seq<char>|
                        #![trigger self@.ids[n1], self@.ids[n2]]
                        self@.ids.contains_key(n1) && self@.ids.contains_key(n2) && n1 != n2
                            ==> self@.ids[n1] != self@.ids[n2]);
                    assert(forall|i: int| 0 <= i < self@.theme.len()
                        ==> (#[trigger] self@.theme[i]) < self@.faces.len());
                    assert(self@.wf());
                }
                id
            },
        }
    }
}

/// Whether a list of ids holds a given id.
fn id_in_list(v: &Vec<usize>, x: usize) -> (b: bool)
    ensures
        b == ids_seq(v@).contains(x as int),
{
    let n = v.len();
    let mut i: usize = 0;
    while i < n
        invariant
            n == v.len(),
            i <= n,
            forall|j: int| 0 <= j < i ==> v@[j] != x,
        decreases n - i,
    {
        if v[i] == x {
            proof {
                assert(ids_seq(v@)[i as int] == x as int);
            }
            return true;
        }
        i += 1;
    }
    proof {
        if ids_seq(v@).contains(x as int) {
            let l = choose|l: int| 0 <= l < ids_seq(v@).len() && ids_seq(v@)[l] == x as int;
            assert(v@[l] == x);
        }
    }
    false
}

/// The registry state after the theme bindings are dropped: every name
/// bound to a theme-managed id disappears from the name map; the slots and
/// the theme list itself stay.
pub open spec fn spec_unload(v: FacesView) -> FacesView {
    FacesView {
        faces: v.faces,
        ids: Map::new(
            |k: Seq<char>| v.ids.contains_key(k) && !v.theme.contains(v.ids[k]),
            |k: Seq<char>| v.ids[k],
        ),
        theme: v.theme,
    }
}

impl Faces {
    /// Drop every name binding that points at a theme-managed slot. The
    /// slots themselves are kept, so ids held elsewhere stay valid.
    #[verifier::rlimit(50)]
    fn unload_theme_faces(&mut self)
        requires
            old(self).wf(),
        ensures
            final(self).wf(),
            final(self)@ == spec_unload(old(self)@),
    {
        let mut kept: Vec<(String, usize)> = Vec::new();
        let n = self.face_ids.len();
        let mut i: usize = 0;
        while i < n
            invariant
                self.wf(),
                *self == *old(self),
                n == self.face_ids.len(),
                i <= n,
                keys_unique(kept@),
                forall|j: int| 0 <= j < kept@.len()
                    ==> exists|l: int| 0 <= l < i && (#[trigger] kept@[j]) == (#[trigger] self.face_ids@[l]),
                forall|j: int| 0 <= j < kept@.len()
                    ==> !self@.theme.contains((#[trigger] kept@[j]).1 as int),
                forall|l: int| 0 <= l < i
                    && !self@.theme.contains((#[trigger] self.face_ids@[l]).1 as int)
                    ==> exists|j: int| 0 <= j < kept@.len() && (#[trigger] kept@[j]) == self.face_ids@[l],
            decreases n - i,
        {
            if !id_in_list(&self.theme_face_ids, self.face_ids[i].1) {
                let pair = (self.face_ids[i].0.clone(), self.face_ids[i].1);
                proof {
                    assert(pair == self.face_ids@[i as int]);
                    assert forall|j: int| 0 <= j < kept@.len() implies
                        (#[trigger] kept@[j]).0@ != pair.0@ by {
                        let l = choose|l: int|
                            0 <= l < i && kept@[j] == (#[trigger] self.face_ids@[l]);
                        assert(self.face_ids@[l].0@ != self.face_ids@[i as int].0@);
                    }
                }
                let ghost prev = kept@;
                kept.push(pair);
                proof {
                    assert(kept@ == prev.push(pair));
                    assert forall|l: int| 0 <= l < i + 1
                        && !self@.theme.contains((#[trigger] self.face_ids@[l]).1 as int) implies
                        exists|j: int|
                            0 <= j < kept@.len() && (#[trigger] kept@[j]) == self.face_ids@[l] by {
                        if l < i {
                            let j = choose|j: int|
                                0 <= j < prev.len() && (#[trigger] prev[j]) == self.face_ids@[l];
                            assert(kept@[j] == self.face_ids@[l]);
                        } else {
                            assert(kept@[kept@.len() - 1] == self.face_ids@[l]);
                        }
                    }
                }
            } else {
                proof {
                    assert forall|l: int| 0 <= l < i + 1
                        && !self@.theme.contains((#[trigger] self.face_ids@[l]).1 as int) implies
                        exists|j: int|
                            0 <= j < kept@.len() && (#[trigger] kept@[j]) == self.face_ids@[l] by {
                        assert(l < i);
                    }
                }
            }
            i += 1;
        }
        proof {
            let s_old = self.face_ids@;
            let theme = self@.theme;
            let lhs = assoc_map(kept@);
            let rhs = spec_unload(self@).ids;
            assert forall|k: Seq<char>| #[trigger] lhs.contains_key(k) implies
                rhs.contains_key(k) && lhs[k] == rhs[k] by {
                lemma_assoc_map_contains(kept@, k);
                let j = choose|j: int| 0 <= j < kept@.len() && (#[trigger] kept@[j]).0@ == k;
                lemma_assoc_map_index(kept@, j);
                let l = choose|l: int| 0 <= l < n && kept@[j] == (#[trigger] s_old[l]);
                lemma_assoc_map_index(s_old, l);
            }
            assert forall|k: Seq<char>| #[trigger] rhs.contains_key(k) implies lhs.contains_key(k) by {
                lemma_assoc_map_contains(s_old, k);
                let l = choose|l: int| 0 <= l < s_old.len() && (#[trigger] s_old[l]).0@ == k;
                lemma_assoc_map_index(s_old, l);
                assert(!theme.contains(s_old[l].1 as int));
                let j = choose|j: int| 0 <= j < kept@.len() && (#[trigger] kept@[j]) == s_old[l];
                lemma_assoc_map_index(kept@, j);
            }
            assert forall|k: Seq<char>| lhs.dom().contains(k) <==> rhs.dom().contains(k) by {
                assert(lhs.dom().contains(k) == lhs.contains_key(k));
                assert(rhs.dom().contains(k) == rhs.contains_key(k));
            }
            assert(lhs.dom() =~= rhs.dom());
            assert(lhs =~= rhs);
        }
        self.face_ids = kept;
        proof {
            assert forall|n1: Seq<char>| #[trigger] self@.ids.contains_key(n1) implies
                self@.ids[n1] < self@.faces.len() by {
                assert(old(self)@.ids.contains_key(n1) && old(self)@.ids[n1] == self@.ids[n1]);
            }
            assert forall|n1: Seq<char>, n2: Seq<char>|
                #![trigger self@.ids[n1], self@.ids[n2]]
                self@.ids.contains_key(n1) && self@.ids.contains_key(n2) && n1 != n2 implies
                self@.ids[n1] != self@.ids[n2] by {
                assert(old(self)@.ids.contains_key(n1) && old(self)@.ids.contains_key(n2));
            }
            assert(forall|i2: int| 0 <= i2 < self@.theme.len()
                ==> (#[trigger] self@.theme[i2]) < self@.faces.len());
            assert(self@.wf());
        }
    }
}

/// The names and faces of a theme, as mathematical values.
pub open spec fn theme_view(s: Seq<(String, Face)>) -> Seq<(Seq<char>, Face)> {
    s.map_values(|p: (String, Face)| (p.0@, p.1))
}

/// No name occurs twice among a theme's entries.
pub open spec fn entries_unique(e: Seq<(Seq<char>, Face)>) -> bool {
    forall|i: int, j: int| #![trigger e[i], e[j]] 0 <= i < j < e.len() ==> e[i].0 != e[j].0
}

/// One step of a theme load, at position `i`. While a theme-managed slot
/// exists at this position, its face and name binding are overwritten in
/// place, preserving the slot's id; past the previous theme's size, the
/// entry is upserted and its id is marked theme-managed.
pub open spec fn spec_load_step(v: FacesView, entry: (Seq<char>, Face), i: int) -> FacesView {
    if i < v.theme.len() {
        FacesView {
            faces: v.faces.update(v.theme[i], entry.1),
            ids: v.ids.insert(entry.0, v.theme[i]),
            theme: v.theme,
        }
    } else {
        let w = spec_put_face(v, entry.0, entry.1);
        FacesView { faces: w.faces, ids: w.ids, theme: v.theme.push(spec_put_id(v, entry.0)) }
    }
}

/// The registry state after loading the entries from position `i` on.
pub open spec fn spec_load_from(v: FacesView, e: Seq<(Seq<char>, Face)>, i: int) -> FacesView
    decreases e.len() - i
        when i <= e.len()
{
    if i < 0 || i >= e.len() {
        v
    } else {
        spec_load_from(spec_load_step(v, e[i], i), e, i + 1)
    }
}

/// The registry state after a full theme load: the previous theme's name
/// bindings are dropped, then each entry is bound in order.
pub open spec fn spec_load_theme(v: FacesView, e: Seq<(Seq<char>, Face)>) -> FacesView {
    spec_load_from(spec_unload(v), e, 0)
}

/// What holds of the registry while entries `i..` of a theme remain to be
/// loaded: the state is well-formed, no binding points at a theme slot that
/// a remaining position will rebind, and a remaining entry whose name is
/// already bound is bound outside the theme-managed slots.
pub open spec fn load_inv(v: FacesView, e: Seq<(Seq<char>, Face)>, i: int) -> bool {
    &&& v.wf()
    &&& forall|n: Seq<char>, k: int|
        #![trigger v.ids[n], v.theme[k]]
        v.ids.contains_key(n) && i <= k < v.theme.len() ==> v.ids[n] != v.theme[k]
    &&& forall|k: int|
        i <= k < e.len() && v.ids.contains_key((#[trigger] e[k]).0)
            ==> !v.theme.contains(v.ids[e[k].0])
}

/// A load step preserves the load invariant and extends the theme-managed
/// list to cover the position it just filled.
proof fn lemma_load_step_inv(v: FacesView, e: Seq<(Seq<char>, Face)>, i: int)
    requires
        load_inv(v, e, i),
        entries_unique(e),
        0 <= i < e.len(),
        v.theme.len() >= i,
    ensures
        load_inv(spec_load_step(v, e[i], i), e, i + 1),
        spec_load_step(v, e[i], i).theme.len() >= i + 1,
        spec_load_step(v, e[i], i).faces.len() >= v.faces.len(),
{
    let w = spec_load_step(v, e[i], i);
    let name = e[i].0;
    if i < v.theme.len() {
        let t = v.theme[i];
        assert forall|n1: Seq<char>, n2: Seq<char>|
            #![trigger w.ids[n1], w.ids[n2]]
            w.ids.contains_key(n1) && w.ids.contains_key(n2) && n1 != n2 implies
            w.ids[n1] != w.ids[n2] by {
            if n1 != name && n2 != name {
                assert(v.ids[n1] != v.ids[n2]);
            } else if n1 == name {
                assert(v.ids.contains_key(n2) && v.ids[n2] != v.theme[i]);
            } else {
                assert(v.ids.contains_key(n1) && v.ids[n1] != v.theme[i]);
            }
        }
        assert forall|n: Seq<char>, k: int|
            #![trigger w.ids[n], w.theme[k]]
            w.ids.contains_key(n) && i + 1 <= k < w.theme.len() implies
            w.ids[n] != w.theme[k] by {
            if n == name {
                assert(w.ids[n] == v.theme[i]);
                assert(v.theme[i] != v.theme[k]);
            } else {
                assert(v.ids.contains_key(n) && v.ids[n] != v.theme[k]);
            }
        }
        assert forall|k: int|
            i + 1 <= k < e.len() && w.ids.contains_key((#[trigger] e[k]).0) implies
            !w.theme.contains(w.ids[e[k].0]) by {
            assert(e[k].0 != name);
            assert(v.ids.contains_key(e[k].0) && v.ids[e[k].0] == w.ids[e[k].0]);
        }
        assert(w.wf());
    } else {
        assert(v.theme.len() == i);
        if v.ids.contains_key(name) {
            let s = v.ids[name];
            assert(!v.theme.contains(s));
            assert(w.theme == v.theme.push(s));
            assert forall|k1: int, k2: int|
                #![trigger w.theme[k1], w.theme[k2]]
                0 <= k1 < k2 < w.theme.len() implies w.theme[k1] != w.theme[k2] by {
                if k2 == w.theme.len() - 1 {
                    assert(w.theme[k1] == v.theme[k1]);
                    assert(v.theme.contains(v.theme[k1]));
                } else {
                    assert(w.theme[k1] == v.theme[k1] && w.theme[k2] == v.theme[k2]);
                }
            }
            assert forall|k: int|
                i + 1 <= k < e.len() && w.ids.contains_key((#[trigger] e[k]).0) implies
                !w.theme.contains(w.ids[e[k].0]) by {
                assert(e[k].0 != name);
                let x = w.ids[e[k].0];
                assert(x == v.ids[e[k].0]);
                assert(!v.theme.contains(x));
                assert(x != s);
                assert forall|l: int| 0 <= l < w.theme.len() implies w.theme[l] != x by {
                    if l < v.theme.len() {
                        assert(v.theme.contains(v.theme[l]));
                    }
                }
                if w.theme.contains(x) {
                    let l = choose|l: int| 0 <= l < w.theme.len() && w.theme[l] == x;
                }
            }
            assert(w.wf());
        } else {
            let fresh = v.faces.len() as int;
            assert(w.theme == v.theme.push(fresh));
            assert forall|k1: int, k2: int|
                #![trigger w.theme[k1], w.theme[k2]]
                0 <= k1 < k2 < w.theme.len() implies w.theme[k1] != w.theme[k2] by {
                if k2 == w.theme.len() - 1 {
                    assert(w.theme[k1] == v.theme[k1] && v.theme[k1] < v.faces.len());
                } else {
                    assert(w.theme[k1] == v.theme[k1] && w.theme[k2] == v.theme[k2]);
                }
            }
            assert forall|n1: Seq<char>, n2: Seq<char>|
                #![trigger w.ids[n1], w.ids[n2]]
                w.ids.contains_key(n1) && w.ids.contains_key(n2) && n1 != n2 implies
                w.ids[n1] != w.ids[n2] by {
                if n1 == name {
                    assert(v.ids.contains_key(n2) && v.ids[n2] < v.faces.len());
                } else if n2 == name {
                    assert(v.ids.contains_key(n1) && v.ids[n1] < v.faces.len());
                } else {
                    assert(v.ids[n1] != v.ids[n2]);
                }
            }
            assert forall|k: int|
                i + 1 <= k < e.len() && w.ids.contains_key((#[trigger] e[k]).0) implies
                !w.theme.contains(w.ids[e[k].0]) by {
                assert(e[k].0 != name);
                let x = w.ids[e[k].0];
                assert(x == v.ids[e[k].0]);
                assert(!v.theme.contains(x));
                assert(x < v.faces.len());
                assert forall|l: int| 0 <= l < w.theme.len() implies w.theme[l] != x by {
                    if l < v.theme.len() {
                        assert(v.theme.contains(v.theme[l]));
                    }
                }
                if w.theme.contains(x) {
                    let l = choose|l: int| 0 <= l < w.theme.len() && w.theme[l] == x;
                }
            }
            assert(w.wf());
        }
    }
}

impl Faces {
    /// Bind a name to an id, replacing any binding the name already has.
    #[verifier::rlimit(50)]
    fn bind_name(&mut self, name: String, id: usize)
        requires
            keys_unique(old(self).face_ids@),
        ensures
            keys_unique(final(self).face_ids@),
            final(self)@.ids == old(self)@.ids.insert(name@, id as int),
            final(self)@.faces == old(self)@.faces,
            final(self)@.theme == old(self)@.theme,
    {
        let n = self.face_ids.len();
        let mut i: usize = 0;
        while i < n
            invariant
                keys_unique(self.face_ids@),
                *self == *old(self),
                n == self.face_ids.len(),
                i <= n,
                forall|j: int| 0 <= j < i ==> (#[trigger] self.face_ids@[j]).0@ != name@,
            decreases n - i,
        {
            if self.face_ids[i].0 == name {
                let ghost prev = self.face_ids@;
                self.face_ids.set(i, (name, id));
                proof {
                    let cur = self.face_ids@;
                    assert(prev[i as int].0@ == cur[i as int].0@);
                    assert forall|j: int, k: int| 0 <= j < k < cur.len() implies
                        (#[trigger] cur[j]).0@ != (#[trigger] cur[k]).0@ by {
                        assert(cur[j].0@ == prev[j].0@ && cur[k].0@ == prev[k].0@);
                        assert(prev[j].0@ != prev[k].0@);
                    }
                    let lhs = assoc_map(cur);
                    let rhs = old(self)@.ids.insert(name@, id as int);
                    assert forall|k: Seq<char>| #[trigger] lhs.contains_key(k) implies
                        rhs.contains_key(k) && lhs[k] == rhs[k] by {
                        lemma_assoc_map_contains(cur, k);
                        let j = choose|j: int| 0 <= j < cur.len() && (#[trigger] cur[j]).0@ == k;
                        lemma_assoc_map_index(cur, j);
                        if j == i {
                            assert(k == name@);
                        } else {
                            assert(cur[j] == prev[j]);
                            assert(prev[j].0@ != prev[i as int].0@);
                            assert(k != name@);
                            lemma_assoc_map_index(prev, j);
                        }
                    }
                    assert forall|k: Seq<char>| #[trigger] rhs.contains_key(k) implies
                        lhs.contains_key(k) by {
                        if k == name@ {
                            lemma_assoc_map_index(cur, i as int);
                        } else {
                            lemma_assoc_map_contains(prev, k);
                            let j = choose|j: int|
                                0 <= j < prev.len() && (#[trigger] prev[j]).0@ == k;
                            assert(j != i);
                            assert(cur[j] == prev[j]);
                            lemma_assoc_map_index(cur, j);
                        }
                    }
                    assert forall|k: Seq<char>| lhs.dom().contains(k) <==> rhs.dom().contains(k) by {
                        assert(lhs.dom().contains(k) == lhs.contains_key(k));
                        assert(rhs.dom().contains(k) == rhs.contains_key(k));
                    }
                    assert(lhs.dom() =~= rhs.dom());
                    assert(lhs =~= rhs);
                }
                return;
            }
            i += 1;
        }
        self.face_ids.push((name, id));
        proof {
            assert(self.face_ids@.drop_last() =~= old(self).face_ids@);
            assert forall|j: int, k: int| 0 <= j < k < self.face_ids@.len() implies
                (#[trigger] self.face_ids@[j]).0@ != (#[trigger] self.face_ids@[k]).0@ by {
                if k < self.face_ids@.len() - 1 {
                    assert(old(self).face_ids@[j].0@ != old(self).face_ids@[k].0@);
                }
            }
        }
    }
}

/// After an unload, the load invariant holds for any theme about to be
/// loaded: nothing is bound to a theme-managed slot any more.
proof fn lemma_unload_inv(v: FacesView, e: Seq<(Seq<char>, Face)>)
    requires
        v.wf(),
    ensures
        load_inv(spec_unload(v), e, 0),
{
    let u = spec_unload(v);
    assert forall|n: Seq<char>, k: int|
        #![trigger u.ids[n], u.theme[k]]
        u.ids.contains_key(n) && 0 <= k < u.theme.len() implies u.ids[n] != u.theme[k] by {
        assert(v.theme.contains(v.theme[k]));
    }
    assert(u.wf());
}

/// Whether a theme's entry names are pairwise distinct, as `load_theme_faces`
/// asks: a theme is an ordered set of named definitions, so a duplicate name
/// is a malformed theme that a caller rejects before loading.
pub fn theme_names_distinct(theme: &Vec<(String, Face)>) -> (b: bool)
    ensures
        b == entries_unique(theme_view(theme@)),
{
    let ghost e = theme_view(theme@);
    let n = theme.len();
    let mut i: usize = 0;
    while i < n
        invariant
            n == theme@.len(),
            e == theme_view(theme@),
            i <= n,
            forall|p: int, q: int| #![trigger e[p], e[q]] 0 <= p < q < e.len() && p < i ==> e[p].0 != e[q].0,
        decreases n - i,
    {
        let mut j: usize = i + 1;
        while j < n
            invariant
                n == theme@.len(),
                e == theme_view(theme@),
                i < j <= n,
                forall|q: int| i < q < j ==> e[i as int].0 != (#[trigger] e[q]).0,
            decreases n - j,
        {
            if theme[i].0 == theme[j].0 {
                proof {
                    assert(e[i as int].0 == e[j as int].0);
                }
                return false;
            }
            j += 1;
        }
        i += 1;
    }
    true
}

impl Faces {
    /// Replace the theme-managed faces wholesale. Positions that already
    /// have a theme-managed slot are overwritten in place, so a face id
    /// issued for such a position stays valid; positions past the previous
    /// theme's size get fresh slots. Names of the previous theme that the
    /// new theme does not rebind are dropped from the name map, but their
    /// slots are kept, so grid cells pointing at them keep rendering.
    pub fn load_theme_faces(&mut self, theme: Vec<(String, Face)>)
        requires
            old(self).wf(),
            entries_unique(theme_view(theme@)),
        ensures
            final(self).wf(),
            final(self)@ == spec_load_theme(old(self)@, theme_view(theme@)),
    {
        let ghost e = theme_view(theme@);
        self.unload_theme_faces();
        let ghost u = self@;
        proof {
            lemma_unload_inv(old(self)@, e);
        }
        let n = theme.len();
        let mut i: usize = 0;
        while i < n
            invariant
                n == theme.len(),
                i <= n,
                e == theme_view(theme@),
                e.len() == n,
                entries_unique(e),
                keys_unique(self.face_ids@),
                load_inv(self@, e, i as int),
                self@.theme.len() >= i,
                spec_load_from(u, e, 0) == spec_load_from(self@, e, i as int),
            decreases n - i,
        {
            let ghost pre = self@;
            let name = theme[i].0.clone();
            let face = theme[i].1;
            proof {
                assert(e[i as int] == (name@, face));
            }
            if i < self.theme_face_ids.len() {
                let id = self.theme_face_ids[i];
                proof {
                    assert(pre.theme[i as int] == id as int);
                    assert(0 <= pre.theme[i as int] < pre.faces.len());
                }
                self.bind_name(name, id);
                self.faces.set(id, face);
                proof {
                    assert(self@.faces == pre.faces.update(pre.theme[i as int], face));
                    assert(self@.ids == pre.ids.insert(e[i as int].0, pre.theme[i as int]));
                    assert(self@.theme == pre.theme);
                    assert(self@ == spec_load_step(pre, e[i as int], i as int));
                }
            } else {
                let id = self.put_face(name, face);
                let ghost mid = self.theme_face_ids@;
                self.theme_face_ids.push(id);
                proof {
                    assert(ids_seq(mid) == pre.theme);
                    assert(self.theme_face_ids@ == mid.push(id));
                    assert(ids_seq(mid.push(id)) =~= ids_seq(mid).push(id as int));
                    assert(id as int == spec_put_id(pre, e[i as int].0));
                    assert(self@.theme == pre.theme.push(spec_put_id(pre, e[i as int].0)));
                    assert(self@ == spec_load_step(pre, e[i as int], i as int));
                }
            }
            proof {
                lemma_load_step_inv(pre, e, i as int);
                assert(spec_load_from(pre, e, i as int) == spec_load_from(self@, e, i as int + 1));
            }
            i += 1;
        }
        proof {
            assert(spec_load_from(self@, e, n as int) == self@);
            assert(self@ == spec_load_from(u, e, 0));
        }
    }
}

/// A load never shrinks the theme list nor changes positions already
/// assigned.
proof fn lemma_load_prefix(v: FacesView, e: Seq<(Seq<char>, Face)>, i: int)
    requires
        0 <= i <= e.len(),
    ensures
        spec_load_from(v, e, i).theme.len() >= v.theme.len(),
        forall|k: int| 0 <= k < v.theme.len()
            ==> #[trigger] spec_load_from(v, e, i).theme[k] == v.theme[k],
    decreases e.len() - i,
{
    if 0 <= i < e.len() {
        let v2 = spec_load_step(v, e[i], i);
        lemma_load_prefix(v2, e, i + 1);
        assert forall|k: int| 0 <= k < v.theme.len() implies
            #[trigger] spec_load_from(v, e, i).theme[k] == v.theme[k] by {
            assert(v2.theme[k] == v.theme[k]);
            assert(spec_load_from(v2, e, i + 1).theme[k] == v2.theme[k]);
        }
    }
}

/// A name that none of the remaining entries carries keeps its binding.
proof fn lemma_load_frame(v: FacesView, e: Seq<(Seq<char>, Face)>, i: int, name: Seq<char>)
    requires
        0 <= i <= e.len(),
        forall|k: int| i <= k < e.len() ==> (#[trigger] e[k]).0 != name,
    ensures
        spec_load_from(v, e, i).ids.contains_key(name) == v.ids.contains_key(name),
        v.ids.contains_key(name) ==> spec_load_from(v, e, i).ids[name] == v.ids[name],
    decreases e.len() - i,
{
    if 0 <= i < e.len() {
        let v2 = spec_load_step(v, e[i], i);
        assert(e[i].0 != name);
        lemma_load_frame(v2, e, i + 1, name);
    }
}

/// After a load, each entry's name is bound to the theme-managed id at the
/// entry's position.
proof fn lemma_load_binds(v: FacesView, e: Seq<(Seq<char>, Face)>, i: int, j: int)
    requires
        entries_unique(e),
        0 <= i <= j < e.len(),
        v.theme.len() >= i,
    ensures
        j < spec_load_from(v, e, i).theme.len(),
        spec_load_from(v, e, i).ids.contains_key(e[j].0),
        spec_load_from(v, e, i).ids[e[j].0] == spec_load_from(v, e, i).theme[j],
    decreases e.len() - i,
{
    let w = spec_load_from(v, e, i);
    let v2 = spec_load_step(v, e[i], i);
    if i == j {
        if i < v.theme.len() {
            assert(v2.ids[e[j].0] == v.theme[j]);
            assert(v2.theme[j] == v.theme[j]);
        } else {
            assert(v.theme.len() == i);
            assert(v2.theme[j] == spec_put_id(v, e[j].0));
            assert(v2.ids[e[j].0] == spec_put_id(v, e[j].0));
        }
        assert forall|k: int| i + 1 <= k < e.len() implies (#[trigger] e[k]).0 != e[j].0 by {
            assert(e[j].0 != e[k].0);
        }
        lemma_load_frame(v2, e, i + 1, e[j].0);
        lemma_load_prefix(v2, e, i + 1);
        assert(w.theme[j] == v2.theme[j]);
    } else {
        lemma_load_binds(v2, e, i + 1, j);
    }
}

/// A slot assigned to a position the load no longer touches keeps its face.
proof fn lemma_load_slot(v: FacesView, e: Seq<(Seq<char>, Face)>, i: int, p: int)
    requires
        load_inv(v, e, i),
        entries_unique(e),
        v.theme.len() >= i,
        0 <= i <= e.len(),
        0 <= p < v.theme.len(),
        p < i,
    ensures
        spec_load_from(v, e, i).faces[v.theme[p]] == v.faces[v.theme[p]],
    decreases e.len() - i,
{
    if 0 <= i < e.len() {
        let v2 = spec_load_step(v, e[i], i);
        lemma_load_step_inv(v, e, i);
        assert(v.theme.contains(v.theme[p]));
        if i < v.theme.len() {
            assert(v.theme[i] != v.theme[p]);
        }
        assert(v2.faces[v.theme[p]] == v.faces[v.theme[p]]);
        assert(v2.theme[p] == v.theme[p]);
        lemma_load_slot(v2, e, i + 1, p);
    }
}

/// After a load, the slot at each entry's position carries the entry's face.
proof fn lemma_load_face(v: FacesView, e: Seq<(Seq<char>, Face)>, i: int, j: int)
    requires
        load_inv(v, e, i),
        entries_unique(e),
        0 <= i <= j < e.len(),
        v.theme.len() >= i,
    ensures
        j < spec_load_from(v, e, i).theme.len(),
        spec_load_from(v, e, i).faces[spec_load_from(v, e, i).theme[j]] == e[j].1,
    decreases e.len() - i,
{
    let w = spec_load_from(v, e, i);
    let v2 = spec_load_step(v, e[i], i);
    lemma_load_step_inv(v, e, i);
    if i == j {
        if i < v.theme.len() {
            assert(v2.theme[j] == v.theme[j]);
            assert(v2.faces[v2.theme[j]] == e[j].1);
        } else {
            assert(v.theme.len() == i);
            if v.ids.contains_key(e[i].0) {
                assert(!v.theme.contains(v.ids[e[i].0]));
                assert(v2.theme[j] == v.ids[e[i].0]);
                assert(v2.faces[v2.theme[j]] == e[j].1);
            } else {
                assert(v2.theme[j] == v.faces.len() as int);
                assert(v2.faces[v2.theme[j]] == e[j].1);
            }
        }
        lemma_load_slot(v2, e, i + 1, j);
        lemma_load_prefix(v2, e, i + 1);
        assert(w.theme[j] == v2.theme[j]);
        assert(w.faces[v2.theme[j]] == v2.faces[v2.theme[j]]);
    } else {
        lemma_load_face(v2, e, i + 1, j);
    }
}

/// A load from an invariant-satisfying state ends well-formed.
proof fn lemma_load_wf(v: FacesView, e: Seq<(Seq<char>, Face)>, i: int)
    requires
        load_inv(v, e, i),
        entries_unique(e),
        0 <= i <= e.len(),
        v.theme.len() >= i,
    ensures
        spec_load_from(v, e, i).wf(),
    decreases e.len() - i,
{
    if i < e.len() {
        lemma_load_step_inv(v, e, i);
        lemma_load_wf(spec_load_step(v, e[i], i), e, i + 1);
    }
}

/// Theme idempotence: loading a theme and then loading the very same theme
/// again binds every name of the theme to the same face id both times.
pub proof fn theorem_theme_idempotent(v: FacesView, e: Seq<(Seq<char>, Face)>, j: int)
    requires
        entries_unique(e),
        0 <= j < e.len(),
    ensures
        ({
            let v1 = spec_load_theme(v, e);
            let v2 = spec_load_theme(v1, e);
            &&& v1.ids.contains_key(e[j].0)
            &&& v2.ids.contains_key(e[j].0)
            &&& v2.ids[e[j].0] == v1.ids[e[j].0]
        }),
{
    let u1 = spec_unload(v);
    let v1 = spec_load_theme(v, e);
    let u2 = spec_unload(v1);
    lemma_load_binds(u1, e, 0, j);
    lemma_load_binds(u2, e, 0, j);
    lemma_load_prefix(u2, e, 0);
}

/// Theme continuity: when two themes carry the same name at the same
/// position, loading the first and then the second keeps the name bound to
/// the same face id, while the face itself becomes the second theme's
/// definition.
pub proof fn theorem_theme_continuity(
    v: FacesView,
    a: Seq<(Seq<char>, Face)>,
    b: Seq<(Seq<char>, Face)>,
    j: int,
)
    requires
        v.wf(),
        entries_unique(a),
        entries_unique(b),
        0 <= j < a.len(),
        j < b.len(),
        a[j].0 == b[j].0,
    ensures
        ({
            let va = spec_load_theme(v, a);
            let vb = spec_load_theme(va, b);
            &&& va.ids.contains_key(a[j].0)
            &&& vb.ids.contains_key(a[j].0)
            &&& vb.ids[a[j].0] == va.ids[a[j].0]
            &&& 0 <= vb.ids[a[j].0] < vb.faces.len()
            &&& vb.faces[vb.ids[a[j].0]] == b[j].1
        }),
{
    let ua = spec_unload(v);
    lemma_unload_inv(v, a);
    lemma_load_binds(ua, a, 0, j);
    let va = spec_load_theme(v, a);
    lemma_load_wf(ua, a, 0);
    let ub = spec_unload(va);
    lemma_unload_inv(va, b);
    lemma_load_binds(ub, b, 0, j);
    lemma_load_prefix(ub, b, 0);
    lemma_load_face(ub, b, 0, j);
    lemma_load_wf(ub, b, 0);
}

} // verus!
