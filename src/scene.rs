use vstd::prelude::*;

use crate::palette::{color_of, palette_color};
use crate::text::same_text;

verus! {

/// How a clock turns accumulated proper time into a progress value.
#[derive(Clone, Copy, Debug, PartialEq, Eq, Structural)]
pub enum ClockType {
    Repeat,
    Once,
}

/// Fatal errors found while building a scene from its configuration.
#[derive(Clone, Copy, Debug, PartialEq, Eq, Structural)]
pub enum BuildError {
    /// A path holds fewer than two events, so it has no stage.
    TooFewEvents,
    /// A color name outside the palette.
    UnknownColor,
    /// A clock mode tag other than `once` or `repeat`.
    UnknownClockMode,
    /// No object carries the follow marker.
    NoFollow,
    /// More than one object carries the follow marker.
    MultipleFollow,
}

/// What the validated description of one object keeps besides its path.
#[derive(Clone, Copy, Debug, PartialEq, Eq, Structural)]
pub struct ObjectStyle {
    pub color: u32,
    pub clock: Option<ClockType>,
}

/// The clock mode that a tag names, if any.
pub open spec fn clock_type_of(tag: Seq<char>) -> Option<ClockType> {
    if tag == "once"@ {
        Some(ClockType::Once)
    } else if tag == "repeat"@ {
        Some(ClockType::Repeat)
    } else {
        None
    }
}

/// Reads a clock mode tag.
pub fn parse_clock_type(tag: &str) -> (r: Option<ClockType>)
    ensures
        r == clock_type_of(tag@),
{
    if same_text(tag, "once") {
        Some(ClockType::Once)
    } else if same_text(tag, "repeat") {
        Some(ClockType::Repeat)
    } else {
        None
    }
}

/// The outcome of validating one object: its path length, color name and
/// optional clock tag, checked in that order.
pub open spec fn object_outcome(
    n_events: nat,
    color: Seq<char>,
    clock: Option<Seq<char>>,
) -> Result<ObjectStyle, BuildError> {
    if n_events < 2 {
        Err(BuildError::TooFewEvents)
    } else if palette_color(color) is None {
        Err(BuildError::UnknownColor)
    } else {
        match clock {
            None => Ok(ObjectStyle { color: palette_color(color)->0, clock: None }),
            Some(tag) => match clock_type_of(tag) {
                None => Err(BuildError::UnknownClockMode),
                Some(ty) => Ok(ObjectStyle { color: palette_color(color)->0, clock: Some(ty) }),
            },
        }
    }
}

/// Validates the parts of an object description that do not depend on its
/// coordinates.
pub fn validate_object(n_events: usize, color: &str, clock: Option<&str>) -> (r: Result<
    ObjectStyle,
    BuildError,
>)
    ensures
        r == object_outcome(
            n_events as nat,
            color@,
            match clock {
                None => None,
                Some(tag) => Some(tag@),
            },
        ),
{
    if n_events < 2 {
        return Err(BuildError::TooFewEvents);
    }
    let c = match color_of(color) {
        None => {
            return Err(BuildError::UnknownColor);
        },
        Some(c) => c,
    };
    match clock {
        None => Ok(ObjectStyle { color: c, clock: None }),
        Some(tag) => match parse_clock_type(tag) {
            None => Err(BuildError::UnknownClockMode),
            Some(ty) => Ok(ObjectStyle { color: c, clock: Some(ty) }),
        },
    }
}

/// Number of `true` entries.
pub open spec fn count_marked(s: Seq<bool>) -> nat
    decreases s.len(),
{
    if s.len() == 0 {
        0
    } else {
        count_marked(s.drop_last()) + if s.last() {
            1nat
        } else {
            0nat
        }
    }
}

proof fn lemma_count_push(s: Seq<bool>, b: bool)
    ensures
        count_marked(s.push(b)) == count_marked(s) + if b {
            1nat
        } else {
            0nat
        },
{
    assert(s.push(b).drop_last() =~= s);
}

proof fn lemma_count_positive(s: Seq<bool>, i: int)
    requires
        0 <= i < s.len(),
        s[i],
    ensures
        count_marked(s) >= 1,
    decreases s.len(),
{
    if i < s.len() - 1 {
        lemma_count_positive(s.drop_last(), i);
    }
}

proof fn lemma_count_two(s: Seq<bool>, i: int, j: int)
    requires
        0 <= i < j < s.len(),
        s[i],
        s[j],
    ensures
        count_marked(s) >= 2,
    decreases s.len(),
{
    if j < s.len() - 1 {
        lemma_count_two(s.drop_last(), i, j);
    } else {
        lemma_count_positive(s.drop_last(), i);
    }
}

/// Picks the single object that carries the follow marker.
pub fn select_follow(marked: &Vec<bool>) -> (r: Result<usize, BuildError>)
    ensures
        r matches Ok(i) ==> i < marked@.len() && marked@[i as int],
        r is Ok <==> count_marked(marked@) == 1,
        r == Err::<usize, BuildError>(BuildError::NoFollow) <==> count_marked(marked@) == 0,
        r == Err::<usize, BuildError>(BuildError::MultipleFollow) <==> count_marked(marked@) >= 2,
{
    let mut found: Option<usize> = None;
    let mut i: usize = 0;
    while i < marked.len()
        invariant
            i <= marked@.len(),
            count_marked(marked@.subrange(0, i as int)) <= 1,
            found is None <==> count_marked(marked@.subrange(0, i as int)) == 0,
            found matches Some(k) ==> k < i && marked@[k as int],
        decreases marked@.len() - i,
    {
        proof {
            assert(marked@.subrange(0, i + 1) =~= marked@.subrange(0, i as int).push(marked@[i as int]));
            lemma_count_push(marked@.subrange(0, i as int), marked@[i as int]);
        }
        if marked[i] {
            if found.is_some() {
                proof {
                    let k = found->0;
                    lemma_count_two(marked@, k as int, i as int);
                }
                return Err(BuildError::MultipleFollow);
            }
            found = Some(i);
        }
        i = i + 1;
    }
    assert(marked@.subrange(0, marked@.len() as int) =~= marked@);
    match found {
        Some(k) => Ok(k),
        None => Err(BuildError::NoFollow),
    }
}

/// The parts of one object's configuration that the scene build checks
/// without its coordinates.
#[derive(Clone, Debug)]
pub struct ObjectDesc {
    /// Number of events of its path.
    pub n_events: usize,
    /// Its color name.
    pub color: String,
    /// Its clock mode tag, if it carries a clock.
    pub clock: Option<String>,
    /// Whether it carries the follow marker.
    pub follow: bool,
}

/// The outcome of validating one described object.
pub open spec fn desc_outcome(d: ObjectDesc) -> Result<ObjectStyle, BuildError> {
    object_outcome(
        d.n_events as nat,
        d.color@,
        match d.clock {
            None => None,
            Some(tag) => Some(tag@),
        },
    )
}

/// The styles of all described objects, or the error of the first invalid one.
pub open spec fn objects_outcome(descs: Seq<ObjectDesc>) -> Result<Seq<ObjectStyle>, BuildError>
    decreases descs.len(),
{
    if descs.len() == 0 {
        Ok(Seq::empty())
    } else {
        match objects_outcome(descs.drop_last()) {
            Err(e) => Err(e),
            Ok(styles) => match desc_outcome(descs.last()) {
                Err(e) => Err(e),
                Ok(style) => Ok(styles.push(style)),
            },
        }
    }
}

/// The follow markers of the described objects.
pub open spec fn follow_marks(descs: Seq<ObjectDesc>) -> Seq<bool> {
    descs.map_values(|d: ObjectDesc| d.follow)
}

/// A validated scene: one style per object, and the index of the followed one.
#[derive(Clone, Debug)]
pub struct ScenePlan {
    pub styles: Vec<ObjectStyle>,
    pub follow: usize,
}

/// Validates every object in order, then requires exactly one follow marker.
pub fn plan_scene(descs: &Vec<ObjectDesc>) -> (r: Result<ScenePlan, BuildError>)
    ensures
        objects_outcome(descs@) matches Err(e) ==> r == Err::<ScenePlan, BuildError>(e),
        r is Ok <==> (objects_outcome(descs@) is Ok && count_marked(follow_marks(descs@)) == 1),
        r matches Ok(p) ==> {
            &&& objects_outcome(descs@) == Ok::<Seq<ObjectStyle>, BuildError>(p.styles@)
            &&& p.follow < descs@.len()
            &&& descs@[p.follow as int].follow
        },
        objects_outcome(descs@) is Ok ==> (r == Err::<ScenePlan, BuildError>(BuildError::NoFollow)
            <==> count_marked(follow_marks(descs@)) == 0),
        objects_outcome(descs@) is Ok ==> (r == Err::<ScenePlan, BuildError>(
            BuildError::MultipleFollow,
        ) <==> count_marked(follow_marks(descs@)) >= 2),
{
    let mut styles: Vec<ObjectStyle> = Vec::new();
    let mut marks: Vec<bool> = Vec::new();
    let mut i: usize = 0;
    while i < descs.len()
        invariant
            i <= descs@.len(),
            objects_outcome(descs@.take(i as int)) == Ok::<Seq<ObjectStyle>, BuildError>(styles@),
            marks@ == follow_marks(descs@.take(i as int)),
        decreases descs@.len() - i,
    {
        let d = &descs[i];
        let clock: Option<&str> = match &d.clock {
            None => None,
            Some(tag) => Some(tag.as_str()),
        };
        let res = validate_object(d.n_events, d.color.as_str(), clock);
        proof {
            assert(descs@.take(i + 1).drop_last() =~= descs@.take(i as int));
            assert(descs@.take(i + 1).last() == *d);
            assert(res == desc_outcome(*d));
        }
        match res {
            Err(e) => {
                proof {
                    lemma_first_error_stays(descs@, i as int + 1);
                }
                return Err(e);
            },
            Ok(style) => {
                styles.push(style);
                marks.push(d.follow);
            },
        }
        proof {
            assert(marks@ =~= follow_marks(descs@.take(i + 1)));
        }
        i = i + 1;
    }
    proof {
        assert(descs@.take(descs@.len() as int) =~= descs@);
    }
    match select_follow(&marks) {
        Ok(k) => Ok(ScenePlan { styles, follow: k }),
        Err(e) => Err(e),
    }
}

proof fn lemma_first_error_stays(descs: Seq<ObjectDesc>, k: int)
    requires
        0 <= k <= descs.len(),
        objects_outcome(descs.take(k)) is Err,
    ensures
        objects_outcome(descs) == objects_outcome(descs.take(k)),
    decreases descs.len() - k,
{
    if k < descs.len() {
        assert(descs.take(k + 1).drop_last() =~= descs.take(k));
        lemma_first_error_stays(descs, k + 1);
    } else {
        assert(descs.take(k) =~= descs);
    }
}

} // verus!
