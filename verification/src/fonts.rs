//! The font fallback order: CJK fonts found on the system are added after
//! the fonts a family already uses.
use vstd::prelude::*;

verus! {

/// The names of `fonts`.
pub open spec fn font_names(fonts: Seq<String>) -> Seq<Seq<char>> {
    fonts.map_values(|f: String| f@)
}

/// The fonts of a family once the CJK fonts `loaded` are added: unchanged
/// where none was loaded; else the family's fonts (`default_first` alone
/// where the family has none yet) followed by `loaded`, in order.
pub fn with_cjk_fallbacks(
    existing: Option<Vec<String>>,
    default_first: &str,
    loaded: &Vec<String>,
) -> (r: Option<Vec<String>>)
    ensures
        loaded@.len() == 0 ==> match existing {
            Some(e) => r matches Some(v) && v@ == e@,
            None => r is None,
        },
        loaded@.len() > 0 ==> (r matches Some(v) && font_names(v@) == match existing {
            Some(e) => font_names(e@),
            None => seq![default_first@],
        } + font_names(loaded@)),
{
    if loaded.len() == 0 {
        return existing;
    }
    let mut v = match existing {
        Some(e) => e,
        None => {
            let mut d: Vec<String> = Vec::new();
            d.push(default_first.to_owned());
            d
        },
    };
    let ghost base = font_names(v@);
    assert(base == match existing {
        Some(e) => font_names(e@),
        None => seq![default_first@],
    }) by {
        if existing is None {
            assert(font_names(v@) =~= seq![default_first@]);
        }
    }
    let mut i: usize = 0;
    while i < loaded.len()
        invariant
            i <= loaded@.len(),
            font_names(v@) == base + font_names(loaded@.take(i as int)),
        decreases loaded@.len() - i,
    {
        let ghost before = v@;
        v.push(loaded[i].clone());
        assert(font_names(v@) =~= font_names(before).push(loaded@[i as int]@));
        assert(font_names(loaded@.take(i + 1)) =~= font_names(loaded@.take(i as int)).push(
            loaded@[i as int]@,
        ));
        i = i + 1;
    }
    assert(loaded@.take(loaded@.len() as int) =~= loaded@);
    Some(v)
}

} // verus!
