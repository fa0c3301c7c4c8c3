//! The template library: labeled reference shapes, stored once each.

use crate::shape::{NormalizedShape, Point, ShapeError, RESAMPLE_TARGET_POINTS};
use vstd::prelude::*;

verus! {

/// What identifies a template: its label and its coordinates.
pub type TemplateKey = (Seq<char>, Seq<Point>);

/// The shapes that `templates` holds under `label`.
pub open spec fn shapes_under(templates: Seq<TemplateKey>, label: Seq<char>) -> Set<Seq<Point>> {
    Set::new(|shape: Seq<Point>| templates.contains((label, shape)))
}

/// The labels that occur in `templates`.
pub open spec fn labels_of(templates: Seq<TemplateKey>) -> Set<Seq<char>> {
    Set::new(|label: Seq<char>| exists|shape: Seq<Point>| templates.contains((label, shape)))
}

/// `templates` as a mapping from each label to the set of its shapes.
pub open spec fn as_map(templates: Seq<TemplateKey>) -> Map<Seq<char>, Set<Seq<Point>>> {
    Map::new(
        |label: Seq<char>| labels_of(templates).contains(label),
        |label: Seq<char>| shapes_under(templates, label),
    )
}

/// `templates` after an insertion of `shape` under `label`: unchanged when
/// that template is already there, and extended at the end otherwise.
pub open spec fn with_template(
    templates: Seq<TemplateKey>,
    label: Seq<char>,
    shape: Seq<Point>,
) -> Seq<TemplateKey> {
    if templates.contains((label, shape)) {
        templates
    } else {
        templates.push((label, shape))
    }
}

/// How many templates of `templates` carry `label`.
pub open spec fn occurrences(templates: Seq<TemplateKey>, label: Seq<char>) -> nat
    decreases templates.len(),
{
    if templates.len() == 0 {
        0
    } else {
        occurrences(templates.drop_last(), label) + if templates.last().0 == label {
            1nat
        } else {
            0nat
        }
    }
}

/// The library that results from inserting the templates of `seed` in order
/// into an empty one.
pub open spec fn seeded(seed: Seq<TemplateKey>) -> Seq<TemplateKey>
    decreases seed.len(),
{
    if seed.len() == 0 {
        Seq::empty()
    } else {
        with_template(seeded(seed.drop_last()), seed.last().0, seed.last().1)
    }
}

/// The views of the entries of a seed list.
pub open spec fn seed_keys(seed: Seq<(String, Vec<Point>)>) -> Seq<TemplateKey> {
    seed.map_values(|entry: (String, Vec<Point>)| (entry.0@, entry.1@))
}

/// Whether every entry of a seed list has the point count of a shape.
pub open spec fn seed_is_complete(seed: Seq<TemplateKey>) -> bool {
    forall|i: int| 0 <= i < seed.len() ==> (#[trigger] seed[i]).1.len() == RESAMPLE_TARGET_POINTS
}

/// Inserting a template keeps every stored template stored once.
pub proof fn lemma_insert_keeps_uniqueness(
    templates: Seq<TemplateKey>,
    label: Seq<char>,
    shape: Seq<Point>,
)
    requires
        templates.no_duplicates(),
    ensures
        with_template(templates, label, shape).no_duplicates(),
        with_template(templates, label, shape).contains((label, shape)),
{
    let after = with_template(templates, label, shape);
    if !templates.contains((label, shape)) {
        assert(after[after.len() - 1] == (label, shape));
    }
}

/// Inserting the same template a second time changes nothing.
pub proof fn lemma_insert_twice(templates: Seq<TemplateKey>, label: Seq<char>, shape: Seq<Point>)
    ensures
        with_template(with_template(templates, label, shape), label, shape) == with_template(
            templates,
            label,
            shape,
        ),
{
    let once = with_template(templates, label, shape);
    if !templates.contains((label, shape)) {
        assert(once[once.len() - 1] == (label, shape));
    }
}

/// An insertion adds the shape to the set under its label and leaves every
/// other label as it was.
pub proof fn lemma_insert_updates_map(
    templates: Seq<TemplateKey>,
    label: Seq<char>,
    shape: Seq<Point>,
)
    ensures
        shapes_under(with_template(templates, label, shape), label) == shapes_under(
            templates,
            label,
        ).insert(shape),
        forall|other: Seq<char>|
            other != label ==> #[trigger] shapes_under(
                with_template(templates, label, shape),
                other,
            ) == shapes_under(templates, other),
        as_map(with_template(templates, label, shape)) == as_map(templates).insert(
            label,
            shapes_under(templates, label).insert(shape),
        ),
{
    let after = with_template(templates, label, shape);
    assert forall|t: TemplateKey| after.contains(t) <==> (templates.contains(t) || t == (
        label,
        shape,
    )) by {
        if templates.contains((label, shape)) {
        } else {
            assert(after[after.len() - 1] == (label, shape));
            if templates.contains(t) {
                let i = choose|i: int| 0 <= i < templates.len() && templates[i] == t;
                assert(after[i] == t);
            }
            if after.contains(t) {
                let i = choose|i: int| 0 <= i < after.len() && after[i] == t;
                if i < templates.len() {
                    assert(templates[i] == t);
                }
            }
        }
    }
    assert(shapes_under(after, label) =~= shapes_under(templates, label).insert(shape));
    assert forall|other: Seq<char>| other != label implies #[trigger] shapes_under(after, other)
        == shapes_under(templates, other) by {
        assert(shapes_under(after, other) =~= shapes_under(templates, other));
    }
    assert(labels_of(after) =~= labels_of(templates).insert(label)) by {
        assert(after.contains((label, shape)));
    }
    assert(as_map(after) =~= as_map(templates).insert(
        label,
        shapes_under(templates, label).insert(shape),
    ));
}

/// Where no template is stored twice, the shapes under a label are as many as
/// the templates that carry it.
pub proof fn lemma_shapes_under_len(templates: Seq<TemplateKey>, label: Seq<char>)
    requires
        templates.no_duplicates(),
    ensures
        shapes_under(templates, label).finite(),
        shapes_under(templates, label).len() == occurrences(templates, label),
    decreases templates.len(),
{
    if templates.len() == 0 {
        assert(shapes_under(templates, label) =~= Set::<Seq<Point>>::empty());
    } else {
        let front = templates.drop_last();
        let last = templates.last();
        lemma_shapes_under_len(front, label);
        assert forall|t: TemplateKey| templates.contains(t) <==> (front.contains(t) || t
            == last) by {
            if front.contains(t) {
                let i = choose|i: int| 0 <= i < front.len() && front[i] == t;
                assert(templates[i] == t);
            }
            if templates.contains(t) {
                let i = choose|i: int| 0 <= i < templates.len() && templates[i] == t;
                if i < front.len() {
                    assert(front[i] == t);
                }
            }
            assert(templates[templates.len() - 1] == last);
        }
        if last.0 == label {
            assert(!front.contains(last)) by {
                if front.contains(last) {
                    let i = choose|i: int| 0 <= i < front.len() && front[i] == last;
                    assert(templates[i] == templates[templates.len() - 1]);
                }
            }
            assert(shapes_under(templates, label) =~= shapes_under(front, label).insert(last.1));
        } else {
            assert(shapes_under(templates, label) =~= shapes_under(front, label));
        }
    }
}

/// A normalized shape tagged with a label.
pub struct Template {
    label: String,
    shape: NormalizedShape,
}

impl View for Template {
    type V = TemplateKey;

    closed spec fn view(&self) -> TemplateKey {
        (self.label@, self.shape@)
    }
}

impl Template {
    /// The label of this template.
    pub fn label(&self) -> (r: &String)
        ensures
            r@ == self@.0,
    {
        &self.label
    }

    /// The shape of this template.
    pub fn shape(&self) -> (r: &NormalizedShape)
        ensures
            r@ == self@.1,
    {
        &self.shape
    }
}

/// Labeled templates. No template (label and coordinates) is stored twice;
/// templates keep the order in which they were first added.
pub struct TemplateLibrary {
    templates: Vec<Template>,
}

impl View for TemplateLibrary {
    type V = Map<Seq<char>, Set<Seq<Point>>>;

    /// The library as a mapping from label to the set of shapes under it.
    open spec fn view(&self) -> Map<Seq<char>, Set<Seq<Point>>> {
        as_map(self.scan())
    }
}

impl TemplateLibrary {
    /// The templates in the order in which a full scan meets them.
    pub closed spec fn scan(&self) -> Seq<TemplateKey> {
        self.templates@.map_values(|t: Template| t@)
    }

    /// The shapes stored under `label`; none where the label is unknown.
    pub open spec fn shapes(&self, label: Seq<char>) -> Set<Seq<Point>> {
        shapes_under(self.scan(), label)
    }

    #[verifier::type_invariant]
    spec fn stores_each_once(self) -> bool {
        self.scan().no_duplicates()
    }

    /// An empty library.
    pub fn new() -> (r: TemplateLibrary)
        ensures
            r.scan() == Seq::<TemplateKey>::empty(),
    {
        let r = TemplateLibrary { templates: Vec::new() };
        assert(r.scan() =~= Seq::<TemplateKey>::empty());
        r
    }

    /// The number of templates.
    pub fn len(&self) -> (n: usize)
        ensures
            n == self.scan().len(),
            self.scan().no_duplicates(),
    {
        proof {
            use_type_invariant(self);
        }
        self.templates.len()
    }

    /// Whether the library holds no template.
    pub fn is_empty(&self) -> (empty: bool)
        ensures
            empty == (self.scan().len() == 0),
    {
        self.templates.len() == 0
    }

    /// The template at position `index` of the scan order, or `None` past
    /// the end.
    pub fn template(&self, index: usize) -> (t: Option<&Template>)
        ensures
            index < self.scan().len() ==> t is Some && t->Some_0@ == self.scan()[index as int],
            index >= self.scan().len() ==> t is None,
    {
        if index < self.templates.len() {
            Some(&self.templates[index])
        } else {
            None
        }
    }

    /// Every template, in scan order.
    pub fn lookup_all(&self) -> (all: &Vec<Template>)
        ensures
            all@.len() == self.scan().len(),
            forall|i: int| 0 <= i < all@.len() ==> (#[trigger] all@[i])@ == self.scan()[i],
            self.scan().no_duplicates(),
    {
        proof {
            use_type_invariant(self);
        }
        &self.templates
    }

    /// The number of distinct shapes stored under `label`.
    pub fn count_for(&self, label: &str) -> (n: usize)
        ensures
            self.shapes(label@).finite(),
            n == self.shapes(label@).len(),
    {
        proof {
            use_type_invariant(self);
            lemma_shapes_under_len(self.scan(), label@);
        }
        let wanted = label.to_owned();
        let mut n: usize = 0;
        let mut i: usize = 0;
        while i < self.templates.len()
            invariant
                i <= self.templates.len(),
                wanted@ == label@,
                n <= i,
                n == occurrences(self.scan().take(i as int), label@),
            decreases self.templates.len() - i,
        {
            proof {
                assert(self.scan().take(i + 1).drop_last() =~= self.scan().take(i as int));
            }
            if self.templates[i].label == wanted {
                n += 1;
            }
            i += 1;
        }
        proof {
            assert(self.scan().take(i as int) =~= self.scan());
        }
        n
    }

    /// Whether `shape` is stored under `label`.
    pub fn contains(&self, label: &str, shape: &NormalizedShape) -> (found: bool)
        ensures
            found == self.scan().contains((label@, shape@)),
    {
        let wanted = label.to_owned();
        let mut i: usize = 0;
        while i < self.templates.len()
            invariant
                i <= self.templates.len(),
                wanted@ == label@,
                forall|k: int| 0 <= k < i ==> self.scan()[k] != (label@, shape@),
            decreases self.templates.len() - i,
        {
            let t = &self.templates[i];
            if t.label == wanted && t.shape.same_as(shape) {
                assert(self.scan()[i as int] == (label@, shape@));
                return true;
            }
            i += 1;
        }
        false
    }

    /// Stores `shape` under `label` unless that template is already there.
    /// Returns whether the template was stored.
    pub fn add(&mut self, label: &str, shape: NormalizedShape) -> (added: bool)
        ensures
            added == !old(self).scan().contains((label@, shape@)),
            final(self).scan() == with_template(old(self).scan(), label@, shape@),
            final(self).scan().contains((label@, shape@)),
            final(self).scan().no_duplicates(),
            final(self)@ == old(self)@.insert(label@, old(self).shapes(label@).insert(shape@)),
    {
        proof {
            use_type_invariant(&*self);
            lemma_insert_keeps_uniqueness(self.scan(), label@, shape@);
            lemma_insert_updates_map(self.scan(), label@, shape@);
        }
        if self.contains(label, &shape) {
            false
        } else {
            let ghost before = self.scan();
            let mut templates: Vec<Template> = Vec::new();
            assert(templates@.map_values(|t: Template| t@) =~= Seq::<TemplateKey>::empty());
            core::mem::swap(&mut self.templates, &mut templates);
            templates.push(Template { label: label.to_owned(), shape });
            assert(templates@.map_values(|t: Template| t@) =~= before.push((label@, shape@)));
            core::mem::swap(&mut self.templates, &mut templates);
            true
        }
    }

    /// Builds a library from a list of labeled point sequences, inserted in
    /// order. Fails, storing nothing, when an entry does not hold exactly
    /// `RESAMPLE_TARGET_POINTS` points.
    pub fn from_seed(seed: &Vec<(String, Vec<Point>)>) -> (r: Result<TemplateLibrary, ShapeError>)
        ensures
            seed_is_complete(seed_keys(seed@)) ==> r is Ok && r->Ok_0.scan() == seeded(
                seed_keys(seed@),
            ),
            !seed_is_complete(seed_keys(seed@)) ==> r == Err::<TemplateLibrary, ShapeError>(
                ShapeError::InsufficientInput,
            ),
    {
        let ghost keys = seed_keys(seed@);
        let mut library = TemplateLibrary::new();
        let mut i: usize = 0;
        while i < seed.len()
            invariant
                i <= seed.len(),
                keys == seed_keys(seed@),
                seed_is_complete(keys.take(i as int)),
                library.scan() == seeded(keys.take(i as int)),
            decreases seed.len() - i,
        {
            let entry = &seed[i];
            assert(keys[i as int] == (entry.0@, entry.1@));
            match NormalizedShape::new(copy_points(&entry.1)) {
                Ok(shape) => {
                    library.add(entry.0.as_str(), shape);
                },
                Err(e) => {
                    return Err(e);
                },
            }
            proof {
                assert(keys.take(i + 1).drop_last() =~= keys.take(i as int));
                assert(keys.take(i + 1).last() == keys[i as int]);
                assert forall|k: int| 0 <= k < i + 1 implies (#[trigger] keys.take(i + 1)[k]).1.len()
                    == RESAMPLE_TARGET_POINTS by {
                    if k < i {
                        assert(keys.take(i as int)[k] == keys[k]);
                    }
                }
            }
            i += 1;
        }
        proof {
            assert(keys.take(i as int) =~= keys);
        }
        Ok(library)
    }
}

/// A copy of `points`.
fn copy_points(points: &Vec<Point>) -> (r: Vec<Point>)
    ensures
        r@ == points@,
{
    let mut r: Vec<Point> = Vec::with_capacity(points.len());
    let mut i: usize = 0;
    while i < points.len()
        invariant
            i <= points.len(),
            r@ == points@.take(i as int),
        decreases points.len() - i,
    {
        r.push(points[i]);
        assert(points@.take(i + 1) =~= points@.take(i as int).push(points@[i as int]));
        i += 1;
    }
    assert(points@.take(i as int) =~= points@);
    r
}

} // verus!
