//! Generic property inspector: gather and display component/property info.
//!
//! A uniform way to present object properties in an editor panel,
//! regardless of the domain (game entities, image layers, audio tracks).

use vstd::prelude::*;

verus! {

/// A single property for display in the inspector panel.
#[derive(Debug, Clone, PartialEq, Eq)]
pub struct Property {
    /// Category or component name (e.g. "Transform", "Material", "Audio").
    pub category: &'static str,
    /// Property name within the category (e.g. "position", "color", "gain").
    pub name: &'static str,
    /// Human-readable value string.
    pub value: String,
}

impl Property {
    /// Create a new property.
    pub fn new(category: &'static str, name: &'static str, value: &str) -> (p: Self)
        ensures
            p.category@ == category@,
            p.name@ == name@,
            p.value@ == value@,
    {
        Property { category, name, value: value.to_owned() }
    }
}

/// The categories of `cats`, each once, in order of first appearance.
pub open spec fn first_appearances(cats: Seq<Seq<char>>) -> Seq<Seq<char>>
    decreases cats.len(),
{
    if cats.len() == 0 {
        Seq::empty()
    } else {
        let seen = first_appearances(cats.drop_last());
        if seen.contains(cats.last()) {
            seen
        } else {
            seen.push(cats.last())
        }
    }
}

/// A collection of properties for a selected object.
#[derive(Debug, Clone)]
pub struct PropertySheet {
    /// All properties gathered for the selected object.
    pub properties: Vec<Property>,
}

impl PropertySheet {
    /// The category of each property, in order.
    pub open spec fn spec_categories(&self) -> Seq<Seq<char>> {
        self.properties@.map_values(|p: Property| p.category@)
    }

    /// Create a new empty property sheet.
    pub fn new() -> (s: Self)
        ensures
            s.properties@ == Seq::<Property>::empty(),
    {
        PropertySheet { properties: Vec::new() }
    }

    /// Add a property to the sheet.
    pub fn push(&mut self, property: Property)
        ensures
            final(self).properties@ == old(self).properties@.push(property),
    {
        self.properties.push(property);
    }

    /// Number of properties.
    pub fn len(&self) -> (n: usize)
        ensures
            n == self.properties@.len(),
    {
        self.properties.len()
    }

    /// Whether the sheet is empty.
    pub fn is_empty(&self) -> (b: bool)
        ensures
            b == (self.properties@.len() == 0),
    {
        self.properties.len() == 0
    }

    /// Properties of the given category, in sheet order.
    pub fn by_category(&self, category: &str) -> (r: Vec<&Property>)
        ensures
            r@.len() == self.properties@.filter(|p: Property| p.category@ == category@).len(),
            forall|k: int|
                0 <= k < r@.len() ==> *r@[k] == self.properties@.filter(
                    |p: Property| p.category@ == category@,
                )[k],
    {
        let ghost pred = |p: Property| p.category@ == category@;
        let key = category.to_owned();
        let mut r: Vec<&Property> = Vec::new();
        let n = self.properties.len();
        let mut i: usize = 0;
        while i < n
            invariant
                i <= n,
                n == self.properties@.len(),
                key@ == category@,
                pred == (|p: Property| p.category@ == category@),
                r@.len() == self.properties@.take(i as int).filter(pred).len(),
                forall|k: int| 0 <= k < r@.len() ==> *r@[k] == self.properties@.take(i as int).filter(pred)[k],
            decreases n - i,
        {
            let p = &self.properties[i];
            let keep = p.category.to_owned() == key;
            assert(keep == pred(self.properties@[i as int]));
            if keep {
                r.push(p);
            }
            proof {
                reveal_with_fuel(Seq::filter, 1);
                let t = self.properties@.take(i + 1);
                assert(t.drop_last() =~= self.properties@.take(i as int));
                assert(t.last() == self.properties@[i as int]);
                assert(t.filter(pred) == if pred(t.last()) {
                    t.drop_last().filter(pred).push(t.last())
                } else {
                    t.drop_last().filter(pred)
                });
            }
            i = i + 1;
        }
        assert(self.properties@.take(n as int) =~= self.properties@);
        r
    }

    /// Unique category names in order of first appearance.
    pub fn categories(&self) -> (r: Vec<&'static str>)
        ensures
            r@.map_values(|c: &str| c@) == first_appearances(self.spec_categories()),
    {
        let ghost cats = self.spec_categories();
        let mut seen: Vec<&'static str> = Vec::new();
        let mut seen_owned: Vec<String> = Vec::new();
        let n = self.properties.len();
        let mut i: usize = 0;
        while i < n
            invariant
                i <= n,
                n == self.properties@.len(),
                cats == self.spec_categories(),
                seen@.len() == seen_owned@.len(),
                forall|k: int| 0 <= k < seen@.len() ==> (#[trigger] seen@[k])@ == seen_owned@[k]@,
                seen@.map_values(|c: &str| c@) == first_appearances(cats.take(i as int)),
            decreases n - i,
        {
            let c = self.properties[i].category;
            let owned = c.to_owned();
            let ghost s0 = seen@.map_values(|c: &str| c@);
            let m = seen_owned.len();
            let mut j: usize = 0;
            let mut found = false;
            while j < m && !found
                invariant
                    j <= m,
                    m == seen_owned@.len(),
                    owned@ == c@,
                    found ==> exists|k: int| 0 <= k < m && #[trigger] seen_owned@[k]@ == c@,
                    !found ==> forall|k: int| 0 <= k < j ==> (#[trigger] seen_owned@[k])@ != c@,
                decreases m - j,
            {
                if seen_owned[j] == owned {
                    found = true;
                }
                j = j + 1;
            }
            proof {
                assert(cats[i as int] == c@);
                let t = cats.take(i + 1);
                assert(t.drop_last() =~= cats.take(i as int));
                assert(t.last() == c@);
                if found {
                    let k = choose|k: int| 0 <= k < m && #[trigger] seen_owned@[k]@ == c@;
                    assert(s0[k] == c@);
                    assert(s0.contains(c@));
                } else {
                    if s0.contains(c@) {
                        let k = choose|k: int| 0 <= k < s0.len() && s0[k] == c@;
                        assert(seen_owned@[k]@ == seen@[k]@);
                    }
                }
            }
            if !found {
                seen.push(c);
                seen_owned.push(owned);
                assert(seen@.map_values(|c: &str| c@) =~= s0.push(c@));
            }
            i = i + 1;
        }
        assert(cats.take(n as int) =~= cats);
        seen
    }
}

impl Default for PropertySheet {
    fn default() -> (s: Self)
        ensures
            s.properties@ == Seq::<Property>::empty(),
    {
        Self::new()
    }
}

/// `k` is where `x` first occurs in `s`.
pub open spec fn first_at(s: Seq<Seq<char>>, x: Seq<char>, k: int) -> bool {
    &&& 0 <= k < s.len()
    &&& s[k] == x
    &&& forall|m: int| 0 <= m < k ==> s[m] != x
}

/// The categories come in the order in which they first occur: of two
/// listed categories, the one listed first occurs first in the sheet, and
/// the sheet's first category is listed first.
pub proof fn lemma_first_appearances_order(cats: Seq<Seq<char>>)
    ensures
        cats.len() > 0 ==> first_appearances(cats).len() > 0 && first_appearances(cats)[0] == cats[0],
        forall|i: int, j: int, ki: int, kj: int|
            #![trigger first_at(cats, first_appearances(cats)[i], ki), first_at(cats, first_appearances(cats)[j], kj)]
            0 <= i < j < first_appearances(cats).len() && first_at(cats, first_appearances(cats)[i], ki) && first_at(
                cats,
                first_appearances(cats)[j],
                kj,
            ) ==> ki < kj,
    decreases cats.len(),
{
    if cats.len() > 0 {
        let init = cats.drop_last();
        lemma_first_appearances_order(init);
        lemma_first_appearances(init);
        let seen = first_appearances(init);
        let fa = first_appearances(cats);
        if init.len() == 0 {
            assert(seen =~= Seq::<Seq<char>>::empty());
            assert(fa =~= seq![cats.last()]);
            assert(cats.last() == cats[0]);
        } else {
            assert(fa[0] == seen[0]);
            assert(init[0] == cats[0]);
        }
        assert forall|i: int, j: int, ki: int, kj: int|
            #![trigger first_at(cats, fa[i], ki), first_at(cats, fa[j], kj)]
            0 <= i < j < fa.len() && first_at(cats, fa[i], ki) && first_at(cats, fa[j], kj) implies ki < kj by {
            // Elements of `seen` occur in `init`, so they first occur there.
            assert(seen.contains(fa[i])) by {
                assert(fa[i] == seen[i]);
            }
            assert(init.contains(fa[i]));
            let m = choose|m: int| 0 <= m < init.len() && init[m] == fa[i];
            assert(cats[m] == fa[i]);
            assert(ki <= m);
            assert(ki < init.len());
            assert forall|x: int| 0 <= x < ki implies init[x] != fa[i] by {
                assert(cats[x] != fa[i]);
            }
            assert(first_at(init, seen[i], ki));
            if j < seen.len() {
                assert(fa[j] == seen[j]);
                assert(seen.contains(fa[j]));
                assert(init.contains(fa[j]));
                let m2 = choose|m2: int| 0 <= m2 < init.len() && init[m2] == fa[j];
                assert(cats[m2] == fa[j]);
                assert(kj < init.len());
                assert forall|x: int| 0 <= x < kj implies init[x] != fa[j] by {
                    assert(cats[x] != fa[j]);
                }
                assert(first_at(init, seen[j], kj));
            } else {
                // `fa[j]` is the newly listed last category, absent from `init`.
                assert(fa[j] == cats.last());
                assert(!seen.contains(cats.last()));
                assert(!init.contains(cats.last()));
                if kj < init.len() {
                    assert(init[kj] == cats.last());
                }
            }
        }
    }
}

/// Each category appears once among the first appearances, and every
/// category of the sheet is among them.
pub proof fn lemma_first_appearances(cats: Seq<Seq<char>>)
    ensures
        first_appearances(cats).no_duplicates(),
        forall|c: Seq<char>| first_appearances(cats).contains(c) <==> cats.contains(c),
    decreases cats.len(),
{
    if cats.len() > 0 {
        let init = cats.drop_last();
        lemma_first_appearances(init);
        let seen = first_appearances(init);
        assert forall|c: Seq<char>| first_appearances(cats).contains(c) <==> cats.contains(c) by {
            if cats.contains(c) && !init.contains(c) {
                let k = choose|k: int| 0 <= k < cats.len() && cats[k] == c;
                if k < init.len() {
                    assert(init[k] == c);
                }
                assert(c == cats.last());
                if !seen.contains(c) {
                    assert(seen.push(c)[seen.len() as int] == c);
                }
            }
            if init.contains(c) {
                let k = choose|k: int| 0 <= k < init.len() && init[k] == c;
                assert(cats[k] == c);
                if !seen.contains(cats.last()) {
                    let m = choose|m: int| 0 <= m < seen.len() && seen[m] == c;
                    assert(seen.push(cats.last())[m] == c);
                }
            }
            if first_appearances(cats).contains(c) && !seen.contains(c) {
                assert(c == cats.last());
                assert(cats[cats.len() - 1] == c);
            }
        }
        if !seen.contains(cats.last()) {
            assert forall|a: int, b: int| 0 <= a < b < seen.len() + 1 implies seen.push(cats.last())[a]
                != seen.push(cats.last())[b] by {
                if b == seen.len() {
                    assert(seen.contains(seen[a]));
                }
            }
        }
    }
}

} // verus!
