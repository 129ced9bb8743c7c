//! Celestial body resolution: planet names and NAIF barycenter IDs.
use vstd::prelude::*;
use anise::prelude::Frame;
use crate::text::{signed_decimal, push_signed_decimal};

verus! {

#[verifier::external_type_specification]
#[verifier::external_body]
pub struct ExFrame(Frame);

/// A celestial body specified by name or NAIF ID.
#[derive(Debug, Clone)]
pub enum BodySpec {
    /// Body name (e.g. `"Earth"`, `"Mars"`).
    Name(String),
    /// NAIF barycenter ID (1-8).
    Id(i32),
}

/// The code of a character after ASCII lowercasing.
pub open spec fn lower_code(c: char) -> int {
    let u = c as int;
    if 65 <= u <= 90 {
        u + 32
    } else {
        u
    }
}

/// `name` equals the all-lowercase `lower` once its ASCII capitals are lowercased.
pub open spec fn matches_ignoring_case(name: Seq<char>, lower: Seq<char>) -> bool {
    &&& name.len() == lower.len()
    &&& forall|i: int| 0 <= i < name.len() ==> lower_code(#[trigger] name[i]) == lower[i] as int
}

/// The lowercase name of the planet whose system barycenter has NAIF ID `id` (1 through 8).
pub open spec fn planet_name(id: int) -> Seq<char> {
    if id == 1 {
        seq!['m', 'e', 'r', 'c', 'u', 'r', 'y']
    } else if id == 2 {
        seq!['v', 'e', 'n', 'u', 's']
    } else if id == 3 {
        seq!['e', 'a', 'r', 't', 'h']
    } else if id == 4 {
        seq!['m', 'a', 'r', 's']
    } else if id == 5 {
        seq!['j', 'u', 'p', 'i', 't', 'e', 'r']
    } else if id == 6 {
        seq!['s', 'a', 't', 'u', 'r', 'n']
    } else if id == 7 {
        seq!['u', 'r', 'a', 'n', 'u', 's']
    } else {
        seq!['n', 'e', 'p', 't', 'u', 'n', 'e']
    }
}

/// The barycenter ID named by `name`, compared without regard to case.
pub open spec fn naif_id_of_name(name: Seq<char>) -> Option<i32> {
    if matches_ignoring_case(name, planet_name(1)) {
        Some(1i32)
    } else if matches_ignoring_case(name, planet_name(2)) {
        Some(2i32)
    } else if matches_ignoring_case(name, planet_name(3)) {
        Some(3i32)
    } else if matches_ignoring_case(name, planet_name(4)) {
        Some(4i32)
    } else if matches_ignoring_case(name, planet_name(5)) {
        Some(5i32)
    } else if matches_ignoring_case(name, planet_name(6)) {
        Some(6i32)
    } else if matches_ignoring_case(name, planet_name(7)) {
        Some(7i32)
    } else if matches_ignoring_case(name, planet_name(8)) {
        Some(8i32)
    } else {
        None
    }
}

/// The barycenter ID a body specification resolves to, if any.
pub open spec fn body_naif_id(body: BodySpec) -> Option<i32> {
    match body {
        BodySpec::Name(name) => naif_id_of_name(name@),
        BodySpec::Id(id) => if 1 <= id <= 8 {
            Some(id)
        } else {
            None
        },
    }
}

/// The message reported for a body specification that resolves to nothing.
pub open spec fn unknown_body_message(body: BodySpec) -> Seq<char> {
    match body {
        BodySpec::Name(name) => "Unknown body name: "@ + name@,
        BodySpec::Id(id) => "Unknown NAIF barycenter ID: "@ + signed_decimal(id as int),
    }
}

/// The J2000-oriented frame centered on the object with the given NAIF ID.
pub uninterp spec fn j2000_frame_of(ephemeris_id: i32) -> Frame;

/// Calls anise's `Frame::from_ephem_j2000`, the constructor with which anise
/// defines its planetary J2000 frame constants (`MERCURY_J2000` is
/// `Frame::new(MERCURY_BARYCENTER, J2000)`, and so on). Claimed: the frame
/// depends on the ID alone.
#[verifier::external_body]
fn j2000_frame(ephemeris_id: i32) -> (frame: Frame)
    ensures
        frame == j2000_frame_of(ephemeris_id),
{
    Frame::from_ephem_j2000(ephemeris_id)
}

fn matches_lowercase(name: &str, lower: &str) -> (b: bool)
    ensures
        b == matches_ignoring_case(name@, lower@),
{
    let n = name.unicode_len();
    let m = lower.unicode_len();
    if n != m {
        return false;
    }
    let mut i: usize = 0;
    while i < n
        invariant
            n == name@.len(),
            m == lower@.len(),
            n == m,
            i <= n,
            forall|j: int| 0 <= j < i ==> lower_code(#[trigger] name@[j]) == lower@[j] as int,
        decreases n - i,
    {
        let c = name.get_char(i);
        let t = lower.get_char(i);
        let u = c as u32;
        let lu: u32 = if 65 <= u && u <= 90 {
            u + 32
        } else {
            u
        };
        if lu != t as u32 {
            return false;
        }
        i = i + 1;
    }
    true
}

fn naif_id_from_name(name: &str) -> (id: Option<i32>)
    ensures
        id == naif_id_of_name(name@),
{
    proof {
        reveal_strlit("mercury");
        reveal_strlit("venus");
        reveal_strlit("earth");
        reveal_strlit("mars");
        reveal_strlit("jupiter");
        reveal_strlit("saturn");
        reveal_strlit("uranus");
        reveal_strlit("neptune");
        assert("mercury"@ =~= planet_name(1));
        assert("venus"@ =~= planet_name(2));
        assert("earth"@ =~= planet_name(3));
        assert("mars"@ =~= planet_name(4));
        assert("jupiter"@ =~= planet_name(5));
        assert("saturn"@ =~= planet_name(6));
        assert("uranus"@ =~= planet_name(7));
        assert("neptune"@ =~= planet_name(8));
    }
    if matches_lowercase(name, "mercury") {
        Some(1)
    } else if matches_lowercase(name, "venus") {
        Some(2)
    } else if matches_lowercase(name, "earth") {
        Some(3)
    } else if matches_lowercase(name, "mars") {
        Some(4)
    } else if matches_lowercase(name, "jupiter") {
        Some(5)
    } else if matches_lowercase(name, "saturn") {
        Some(6)
    } else if matches_lowercase(name, "uranus") {
        Some(7)
    } else if matches_lowercase(name, "neptune") {
        Some(8)
    } else {
        None
    }
}

/// Resolve a body specification to the NAIF ID of its system barycenter:
/// a planet name (in any case) or an ID from 1 to 8.
pub fn resolve_naif_id(body: &BodySpec) -> (r: Result<i32, String>)
    ensures
        body_naif_id(*body) matches Some(id) ==> r == Ok::<i32, String>(id),
        body_naif_id(*body) is None ==> (r matches Err(msg) && msg@ == unknown_body_message(*body)),
{
    match body {
        BodySpec::Name(name) => {
            match naif_id_from_name(name.as_str()) {
                Some(id) => Ok(id),
                None => {
                    let mut msg = String::from_str("Unknown body name: ");
                    msg.append(name.as_str());
                    Err(msg)
                },
            }
        },
        BodySpec::Id(id) => {
            if 1 <= *id && *id <= 8 {
                Ok(*id)
            } else {
                let mut msg = String::from_str("Unknown NAIF barycenter ID: ");
                push_signed_decimal(&mut msg, *id);
                Err(msg)
            }
        },
    }
}

/// Resolve a body specification (name or NAIF ID) to an anise Frame.
pub fn resolve_frame(body: &BodySpec) -> (r: Result<Frame, String>)
    ensures
        body_naif_id(*body) matches Some(id) ==> r == Ok::<Frame, String>(j2000_frame_of(id)),
        body_naif_id(*body) is None ==> (r matches Err(msg) && msg@ == unknown_body_message(*body)),
{
    match resolve_naif_id(body) {
        Ok(id) => Ok(j2000_frame(id)),
        Err(msg) => Err(msg),
    }
}


/// Body names are resolved without regard to ASCII case: two names that
/// agree once lowercased resolve to the same barycenter, or both to none.
pub proof fn lemma_name_resolution_ignores_case(a: Seq<char>, b: Seq<char>)
    requires
        a.len() == b.len(),
        forall|i: int| 0 <= i < a.len() ==> lower_code(#[trigger] a[i]) == lower_code(b[i]),
    ensures
        naif_id_of_name(a) == naif_id_of_name(b),
{
    assert forall|id: int| 1 <= id <= 8 implies matches_ignoring_case(a, planet_name(id))
        == matches_ignoring_case(b, planet_name(id)) by {
        if matches_ignoring_case(a, planet_name(id)) {
            assert forall|i: int| 0 <= i < b.len() implies lower_code(#[trigger] b[i])
                == planet_name(id)[i] as int by {
                assert(lower_code(a[i]) == planet_name(id)[i] as int);
            }
        }
        if matches_ignoring_case(b, planet_name(id)) {
            assert forall|i: int| 0 <= i < a.len() implies lower_code(#[trigger] a[i])
                == planet_name(id)[i] as int by {
                assert(lower_code(b[i]) == planet_name(id)[i] as int);
            }
        }
    }
    assert(matches_ignoring_case(a, planet_name(1)) == matches_ignoring_case(b, planet_name(1)));
    assert(matches_ignoring_case(a, planet_name(2)) == matches_ignoring_case(b, planet_name(2)));
    assert(matches_ignoring_case(a, planet_name(3)) == matches_ignoring_case(b, planet_name(3)));
    assert(matches_ignoring_case(a, planet_name(4)) == matches_ignoring_case(b, planet_name(4)));
    assert(matches_ignoring_case(a, planet_name(5)) == matches_ignoring_case(b, planet_name(5)));
    assert(matches_ignoring_case(a, planet_name(6)) == matches_ignoring_case(b, planet_name(6)));
    assert(matches_ignoring_case(a, planet_name(7)) == matches_ignoring_case(b, planet_name(7)));
    assert(matches_ignoring_case(a, planet_name(8)) == matches_ignoring_case(b, planet_name(8)));
}

/// A body can be named either way: the planet's name and its barycenter ID
/// (1 through 8) resolve to the same barycenter.
pub proof fn lemma_names_and_ids_agree(id: i32)
    requires
        1 <= id <= 8,
    ensures
        naif_id_of_name(planet_name(id as int)) == Some(id),
        body_naif_id(BodySpec::Id(id)) == Some(id),
{
    let p = planet_name(id as int);
    assert(matches_ignoring_case(p, p));
    assert(!matches_ignoring_case(planet_name(3), planet_name(2))) by {
        assert(lower_code(planet_name(3)[0]) != planet_name(2)[0] as int);
    }
    assert(!matches_ignoring_case(planet_name(4), planet_name(1)));
    assert(!matches_ignoring_case(planet_name(5), planet_name(1))) by {
        assert(lower_code(planet_name(5)[0]) != planet_name(1)[0] as int);
    }
    assert(!matches_ignoring_case(planet_name(6), planet_name(7))) by {
        assert(lower_code(planet_name(6)[0]) != planet_name(7)[0] as int);
    }
    assert(!matches_ignoring_case(planet_name(7), planet_name(6))) by {
        assert(lower_code(planet_name(7)[0]) != planet_name(6)[0] as int);
    }
    assert(!matches_ignoring_case(planet_name(8), planet_name(1))) by {
        assert(lower_code(planet_name(8)[0]) != planet_name(1)[0] as int);
    }
    assert(!matches_ignoring_case(planet_name(8), planet_name(5))) by {
        assert(lower_code(planet_name(8)[0]) != planet_name(5)[0] as int);
    }
}

/// Whatever a body specification resolves to is a planetary system
/// barycenter, NAIF ID 1 through 8.
pub proof fn lemma_resolved_ids_are_barycenters(body: BodySpec)
    ensures
        body_naif_id(body) matches Some(id) ==> 1 <= id <= 8,
{
}

} // verus!
