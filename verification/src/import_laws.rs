//! What an import makes of each component of an export.

use crate::site_import::{ApiComponent, ConfigBounds, ImportedView};
use vstd::prelude::*;

verus! {

/// A letter of a category's token as it stands in the name of a Lisp function.
pub open spec fn lisp_letter(c: char) -> char {
    if c == '_' {
        '-'
    } else if 'A' <= c <= 'Z' {
        (c as u32 + 32) as char
    } else {
        c
    }
}

/// A token as it stands in the name of a Lisp function.
pub open spec fn lisp_word(token: Seq<char>) -> Seq<char> {
    token.map_values(|c: char| lisp_letter(c))
}

/// A component of the category that the token names has a simulated twin.
pub open spec fn is_simulated(token: Seq<char>, inverter: Seq<char>) -> bool {
    ||| token == "GRID_CONNECTION_POINT"@
    ||| token == "GRID"@
    ||| token == "METER"@
    ||| token == "INVERTER"@ && (inverter == "BATTERY"@ || inverter == "PV"@ || inverter
        == "SOLAR"@)
    ||| token == "BATTERY"@
    ||| token == "EV_CHARGER"@
    ||| token == "CHP"@
}

/// The literals of the import.
proof fn lemma_tokens()
    ensures
        lisp_word("GRID_CONNECTION_POINT"@) == "grid-connection-point"@,
        lisp_word("METER"@) == "meter"@,
        lisp_word("BATTERY"@) == "battery"@,
        lisp_word("EV_CHARGER"@) == "ev-charger"@,
        lisp_word("CHP"@) == "chp"@,
        "GRID_CONNECTION_POINT"@.len() == 21,
        "GRID"@.len() == 4,
        "METER"@.len() == 5,
        "INVERTER"@.len() == 8,
        "BATTERY"@.len() == 7,
        "EV_CHARGER"@.len() == 10,
        "CHP"@.len() == 3,
        "PV"@.len() == 2,
        "SOLAR"@.len() == 5,
        "METER"@[0] == 'M',
{
    reveal_strlit("GRID_CONNECTION_POINT");
    reveal_strlit("GRID");
    reveal_strlit("METER");
    reveal_strlit("INVERTER");
    reveal_strlit("BATTERY");
    reveal_strlit("EV_CHARGER");
    reveal_strlit("CHP");
    reveal_strlit("PV");
    reveal_strlit("SOLAR");
    reveal_strlit("grid-connection-point");
    reveal_strlit("meter");
    reveal_strlit("battery");
    reveal_strlit("ev-charger");
    reveal_strlit("chp");
    assert(lisp_word("GRID_CONNECTION_POINT"@) =~= "grid-connection-point"@);
    assert(lisp_word("METER"@) =~= "meter"@);
    assert(lisp_word("BATTERY"@) =~= "battery"@);
    assert(lisp_word("EV_CHARGER"@) =~= "ev-charger"@);
    assert(lisp_word("CHP"@) =~= "chp"@);
}

/// The functions of the import.
proof fn lemma_makers()
    ensures
        "make-grid-connection-point"@ == "make-"@ + "grid-connection-point"@,
        "make-meter"@ == "make-"@ + "meter"@,
        "make-battery"@ == "make-"@ + "battery"@,
        "make-ev-charger"@ == "make-"@ + "ev-charger"@,
        "make-chp"@ == "make-"@ + "chp"@,
        "make-grid-connection-point"@.len() == 26,
        "make-meter"@.len() == 10,
        "make-battery"@.len() == 12,
        "make-ev-charger"@.len() == 15,
        "make-chp"@.len() == 8,
        "make-battery-inverter"@.len() == 21,
        "make-solar-inverter"@.len() == 19,
{
    reveal_strlit("make-");
    reveal_strlit("grid-connection-point");
    reveal_strlit("meter");
    reveal_strlit("battery");
    reveal_strlit("ev-charger");
    reveal_strlit("chp");
    reveal_strlit("make-grid-connection-point");
    reveal_strlit("make-meter");
    reveal_strlit("make-battery");
    reveal_strlit("make-ev-charger");
    reveal_strlit("make-chp");
    reveal_strlit("make-battery-inverter");
    reveal_strlit("make-solar-inverter");
    assert("make-grid-connection-point"@ =~= "make-"@ + "grid-connection-point"@);
    assert("make-meter"@ =~= "make-"@ + "meter"@);
    assert("make-battery"@ =~= "make-"@ + "battery"@);
    assert("make-ev-charger"@ =~= "make-"@ + "ev-charger"@);
    assert("make-chp"@ =~= "make-"@ + "chp"@);
}

/// The function is the one that makes components of this category.
pub open spec fn makes_its_category(c: ApiComponent, made: Seq<char>) -> bool {
    let token = c.suffix();
    if token == "GRID"@ {
        made == "make-"@ + lisp_word("GRID_CONNECTION_POINT"@)
    } else if token == "INVERTER"@ {
        made == if c.inverter_suffix() == "BATTERY"@ {
            "make-battery-inverter"@
        } else {
            "make-solar-inverter"@
        }
    } else {
        made == "make-"@ + lisp_word(token)
    }
}

/// The function that makes a component is named after its category: `make-`
/// and the token in the spelling of Lisp. An inverter's is named after what is
/// behind it too, and the older token of the grid connection point stands for
/// the newer one.
pub proof fn law_maker_is_of_the_category(c: ApiComponent)
    requires
        crate::site_import::lifted(c) is Ok,
    ensures
        makes_its_category(c, (crate::site_import::lifted(c)->Ok_0).make_fn),
{
    lemma_tokens();
    lemma_makers();
}

/// A component is imported exactly when its id is a number and its category
/// has a simulated twin, and keeps its id.
pub proof fn law_simulated_categories_are_imported(c: ApiComponent)
    ensures
        crate::site_import::lifted(c) is Ok <==> c.id.parsed() is Ok && is_simulated(
            c.suffix(),
            c.inverter_suffix(),
        ),
        crate::site_import::lifted(c) is Ok ==> (crate::site_import::lifted(c)->Ok_0).id
            == c.id.parsed()->Ok_0,
{
    lemma_tokens();
}

/// Components of different categories are made by different functions: one
/// function tells the category, but for the two tokens of the grid connection
/// point, and what kind of inverter it is.
pub proof fn law_makers_tell_the_category(a: ApiComponent, b: ApiComponent)
    requires
        crate::site_import::lifted(a) is Ok,
        crate::site_import::lifted(b) is Ok,
        (crate::site_import::lifted(a)->Ok_0).make_fn == (crate::site_import::lifted(
            b,
        )->Ok_0).make_fn,
    ensures
        ({
            let grid = |t: Seq<char>| t == "GRID"@ || t == "GRID_CONNECTION_POINT"@;
            ||| a.suffix() == b.suffix()
            ||| grid(a.suffix()) && grid(b.suffix())
        }),
        a.suffix() == "INVERTER"@ ==> (a.inverter_suffix() == "BATTERY"@ <==> b.inverter_suffix()
            == "BATTERY"@),
{
    lemma_tokens();
    lemma_makers();
}

/// A token's category is what follows its prefix, be it the present one or the
/// older one.
pub proof fn law_prefixes_do_not_matter(c: ApiComponent, category: Seq<char>)
    requires
        c.category@ == "ELECTRICAL_COMPONENT_CATEGORY_"@ + category || c.category@
            == "COMPONENT_CATEGORY_"@ + category,
    ensures
        c.suffix() == category,
{
    let prefixes = crate::site_import::category_prefixes();
    reveal_strlit("ELECTRICAL_COMPONENT_CATEGORY_");
    reveal_strlit("COMPONENT_CATEGORY_");
    let long = "ELECTRICAL_COMPONENT_CATEGORY_"@;
    let short = "COMPONENT_CATEGORY_"@;
    let token = c.category@;
    reveal_with_fuel(crate::site_import::stripped, 3);
    assert(prefixes[0]@ == long);
    assert(prefixes.skip(1)[0] == prefixes[1]);
    assert(prefixes[1]@ == short);
    if token == long + category {
        assert(token.subrange(0, long.len() as int) =~= long);
        assert(token.take(long.len() as int) =~= long);
        assert(token.skip(long.len() as int) =~= category);
    } else {
        assert(token[0] == 'C');
        assert(token.subrange(0, short.len() as int) =~= short);
        assert(token.take(short.len() as int) =~= short);
        assert(token.skip(short.len() as int) =~= category);
        if token.len() >= long.len() {
            assert(token.take(long.len() as int)[0] == 'C');
            assert(token.subrange(0, long.len() as int)[0] == 'C');
        }
    }
}

/// An argument of an imported component.
pub open spec fn has_argument(v: ImportedView, key: Seq<char>, value: Seq<char>) -> bool {
    v.kwargs.contains((key, value))
}

proof fn lemma_joined<A>(a: Seq<A>, b: Seq<A>, x: A)
    ensures
        a.contains(x) ==> (a + b).contains(x),
        b.contains(x) ==> (a + b).contains(x),
{
    if a.contains(x) {
        let i = choose|i: int| 0 <= i < a.len() && a[i] == x;
        assert((a + b)[i] == x);
    }
    if b.contains(x) {
        let i = choose|i: int| 0 <= i < b.len() && b[i] == x;
        assert((a + b)[a.len() + i] == x);
    }
}

/// The rated power of the export is that of the twin: both edges under their
/// keys, for whatever has a rating.
pub proof fn law_rating_is_carried_over(c: ApiComponent, b: ConfigBounds)
    requires
        crate::site_import::lifted(c) is Ok,
        c.suffix() != "METER"@,
        c.suffix() != "CHP"@,
        crate::site_import::first_bounds(c.metric_config_bounds@, "AC_POWER_ACTIVE"@) == Some(b),
        b.lower is Some,
        b.upper is Some,
    ensures
        has_argument(
            crate::site_import::lifted(c)->Ok_0,
            ":rated-lower"@,
            crate::lisp_text::number_text(b.lower->0.value, b.lower->0.shown@),
        ),
        has_argument(
            crate::site_import::lifted(c)->Ok_0,
            ":rated-upper"@,
            crate::lisp_text::number_text(b.upper->0.value, b.upper->0.shown@),
        ),
{
    let lower = (
        ":rated-lower"@,
        crate::lisp_text::number_text(b.lower->0.value, b.lower->0.shown@),
    );
    let upper = (
        ":rated-upper"@,
        crate::lisp_text::number_text(b.upper->0.value, b.upper->0.shown@),
    );
    let rated = crate::site_import::rated_arguments(c);
    assert(rated[0] == lower);
    assert(rated[1] == upper);
    lemma_rest(c, rated, lower);
    lemma_rest(c, rated, upper);
}

/// What is among the arguments for the rating or the store is among all.
proof fn lemma_rest(
    c: ApiComponent,
    part: Seq<(Seq<char>, Seq<char>)>,
    x: (Seq<char>, Seq<char>),
)
    requires
        crate::site_import::lifted(c) is Ok,
        c.suffix() != "METER"@,
        c.suffix() != "CHP"@,
        part == crate::site_import::rated_arguments(c) || part
            == crate::site_import::storage_arguments(c) && (c.suffix() == "BATTERY"@ || c.suffix()
            == "EV_CHARGER"@),
        part.contains(x),
    ensures
        (crate::site_import::lifted(c)->Ok_0).kwargs.contains(x),
{
    lemma_tokens();
    let id = c.id.parsed()->Ok_0;
    let made = crate::site_import::made_by(id, c)->Ok_0.1;
    lemma_joined(
        crate::site_import::fuse_argument(c),
        crate::site_import::rated_arguments(c),
        x,
    );
    lemma_joined(
        crate::site_import::storage_arguments(c),
        crate::site_import::rated_arguments(c),
        x,
    );
    lemma_joined(crate::site_import::name_argument(c), made, x);
}

/// The capacity of the export is that of the twin, the upper bound where both
/// are given; the range of charge likewise, each edge under its key.
pub proof fn law_store_is_carried_over(c: ApiComponent)
    requires
        crate::site_import::lifted(c) is Ok,
        c.suffix() == "BATTERY"@ || c.suffix() == "EV_CHARGER"@,
    ensures
        ({
            let twin = crate::site_import::lifted(c)->Ok_0;
            let capacity = crate::site_import::first_bounds(
                c.metric_config_bounds@,
                "BATTERY_CAPACITY"@,
            );
            let soc = crate::site_import::first_bounds(
                c.metric_config_bounds@,
                "BATTERY_SOC_PCT"@,
            );
            &&& capacity matches Some(b) ==> (b.upper matches Some(f) ==> has_argument(
                twin,
                ":capacity"@,
                crate::lisp_text::number_text(f.value, f.shown@),
            ))
            &&& capacity matches Some(b) ==> (b.upper is None ==> (b.lower matches Some(f)
                ==> has_argument(
                twin,
                ":capacity"@,
                crate::lisp_text::number_text(f.value, f.shown@),
            )))
            &&& soc matches Some(b) ==> (b.lower matches Some(f) ==> has_argument(
                twin,
                ":soc-lower"@,
                crate::lisp_text::number_text(f.value, f.shown@),
            ))
            &&& soc matches Some(b) ==> (b.upper matches Some(f) ==> has_argument(
                twin,
                ":soc-upper"@,
                crate::lisp_text::number_text(f.value, f.shown@),
            ))
        }),
{
    lemma_tokens();
    let store = crate::site_import::storage_arguments(c);
    let capacity = crate::site_import::first_bounds(
        c.metric_config_bounds@,
        "BATTERY_CAPACITY"@,
    );
    let soc = crate::site_import::first_bounds(c.metric_config_bounds@, "BATTERY_SOC_PCT"@);
    if let Some(b) = capacity {
        if let Some(f) = (if b.upper is Some {
            b.upper
        } else {
            b.lower
        }) {
            let x = (":capacity"@, crate::lisp_text::number_text(f.value, f.shown@));
            assert(store[0] == x);
            lemma_rest(c, store, x);
        }
    }
    if let Some(b) = soc {
        let lower = crate::site_import::figure_argument(":soc-lower"@, b.lower);
        let upper = crate::site_import::figure_argument(":soc-upper"@, b.upper);
        let first = store.take(store.len() - (lower + upper).len());
        assert(store =~= first + (lower + upper));
        if let Some(f) = b.lower {
            let x = (":soc-lower"@, crate::lisp_text::number_text(f.value, f.shown@));
            assert(lower[0] == x);
            lemma_joined(lower, upper, x);
            lemma_joined(first, lower + upper, x);
            lemma_rest(c, store, x);
        }
        if let Some(f) = b.upper {
            let x = (":soc-upper"@, crate::lisp_text::number_text(f.value, f.shown@));
            assert(upper[0] == x);
            lemma_joined(lower, upper, x);
            lemma_joined(first, lower + upper, x);
            lemma_rest(c, store, x);
        }
    }
}

/// A name is the first argument, quoted; a component without one starts with
/// what its category takes. Meters and CHPs take nothing else.
pub proof fn law_names_are_carried_over(c: ApiComponent)
    requires
        crate::site_import::lifted(c) is Ok,
    ensures
        ({
            let twin = crate::site_import::lifted(c)->Ok_0;
            let named = c.name matches Some(n) && n@.len() > 0;
            &&& named ==> twin.kwargs.len() > 0 && twin.kwargs[0] == (
                ":name"@,
                "\""@ + crate::lisp_text::escaped(c.name->0@) + "\""@,
            )
            &&& c.suffix() == "METER"@ || c.suffix() == "CHP"@ ==> twin.kwargs.len() == if named {
                1nat
            } else {
                0nat
            }
        }),
{
    lemma_tokens();
}

/// The fuse of a grid connection point is that of its twin.
pub proof fn law_fuse_is_carried_over(c: ApiComponent)
    requires
        crate::site_import::lifted(c) is Ok,
        c.suffix() == "GRID_CONNECTION_POINT"@ || c.suffix() == "GRID"@,
        c.fuse() is Some,
    ensures
        has_argument(
            crate::site_import::lifted(c)->Ok_0,
            ":rated-fuse-current"@,
            crate::text::decimal(c.fuse()->0 as nat),
        ),
{
    let x = (":rated-fuse-current"@, crate::text::decimal(c.fuse()->0 as nat));
    let fuse = crate::site_import::fuse_argument(c);
    let rated = crate::site_import::rated_arguments(c);
    assert(fuse[0] == x);
    lemma_joined(fuse, rated, x);
    lemma_joined(crate::site_import::name_argument(c), fuse + rated, x);
}

} // verus!
