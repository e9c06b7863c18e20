//! What the search command computes before and after it talks to the
//! network: the JSON-style filter of extension codes that goes into the
//! lookup URL, and the framing that turns the lookup's back-to-back JSON
//! records into one well-formed JSON array. The fetch itself and the JSON
//! decoding are collaborators outside this crate.

use vstd::prelude::*;
use crate::models::Extension;
use crate::store::{selected_only, Store};
use crate::text::push_char;

verus! {

/// `s` wrapped in double quotes.
pub open spec fn quoted(s: Seq<char>) -> Seq<char> {
    seq!['"'] + s + seq!['"']
}

/// The items each wrapped in double quotes and joined with commas.
pub open spec fn comma_join_quoted(items: Seq<Seq<char>>) -> Seq<char>
    decreases items.len(),
{
    if items.len() == 0 {
        Seq::empty()
    } else if items.len() == 1 {
        quoted(items[0])
    } else {
        quoted(items[0]) + seq![','] + comma_join_quoted(items.drop_first())
    }
}

/// The filter the lookup endpoint takes: the quoted items joined with
/// commas, in brackets.
pub open spec fn wire_filter(items: Seq<Seq<char>>) -> Seq<char> {
    seq!['['] + comma_join_quoted(items) + seq![']']
}

/// The string contents of a list of strings.
pub open spec fn views_of(tlds: Seq<String>) -> Seq<Seq<char>> {
    tlds.map_values(|t: String| t@)
}

/// The extension codes of the catalog entries marked selected, in order.
pub open spec fn selected_tld_views(exts: Seq<Extension>) -> Seq<Seq<char>> {
    selected_only(exts).map_values(|e: Extension| e.tld@)
}

/// The extension codes searched when the user has not chosen any.
pub open spec fn default_tld_views() -> Seq<Seq<char>> {
    seq!["com"@, "net"@, "org"@, "co"@, "io"@, "ai"@]
}

/// Joining one more item appends a comma (unless it is the first) and the
/// quoted item.
proof fn lemma_comma_join_snoc(items: Seq<Seq<char>>, x: Seq<char>)
    ensures
        comma_join_quoted(items.push(x)) == if items.len() == 0 {
            quoted(x)
        } else {
            comma_join_quoted(items) + seq![','] + quoted(x)
        },
    decreases items.len(),
{
    let pushed = items.push(x);
    if items.len() == 0 {
        assert(pushed.len() == 1);
        assert(pushed[0] == x);
    } else {
        assert(pushed[0] == items[0]);
        assert(pushed.drop_first() =~= items.drop_first().push(x));
        lemma_comma_join_snoc(items.drop_first(), x);
        if items.len() == 1 {
            assert(items.drop_first().len() == 0);
            assert(comma_join_quoted(pushed) == quoted(items[0]) + seq![','] + quoted(x));
            assert(comma_join_quoted(items) == quoted(items[0]));
        } else {
            assert(comma_join_quoted(items) == quoted(items[0]) + seq![','] + comma_join_quoted(
                items.drop_first(),
            ));
            assert(comma_join_quoted(pushed) =~= comma_join_quoted(items) + seq![','] + quoted(x));
        }
    }
}

/// Build the bracketed, comma-separated, quoted filter from a list of
/// extension codes.
pub fn extension_filter_of(tlds: &Vec<String>) -> (r: String)
    ensures
        r@ == wire_filter(views_of(tlds@)),
{
    let ghost items = views_of(tlds@);
    let mut acc = String::new();
    push_char(&mut acc, '[');
    proof {
        assert(acc@ =~= seq!['['] + comma_join_quoted(items.take(0)));
    }
    let n = tlds.len();
    let mut j: usize = 0;
    while j < n
        invariant
            n == tlds@.len(),
            items == views_of(tlds@),
            items.len() == n,
            j <= n,
            acc@ == seq!['['] + comma_join_quoted(items.take(j as int)),
        decreases n - j,
    {
        if j > 0 {
            push_char(&mut acc, ',');
        }
        push_char(&mut acc, '"');
        acc.append(tlds[j].as_str());
        push_char(&mut acc, '"');
        proof {
            lemma_comma_join_snoc(items.take(j as int), items[j as int]);
            assert(items.take(j + 1 as int) =~= items.take(j as int).push(items[j as int]));
            assert(items[j as int] == tlds@[j as int]@);
            assert(acc@ =~= seq!['['] + comma_join_quoted(items.take(j + 1 as int)));
        }
        j += 1;
    }
    push_char(&mut acc, ']');
    proof {
        assert(items.take(n as int) =~= items);
        assert(acc@ =~= wire_filter(items));
    }
    acc
}

/// The filter of extension codes the user selected, in catalog order, in
/// the shape the lookup endpoint takes (e.g. `["com","net"]`).
pub fn get_selected_extensions(store: &Store) -> (r: String)
    ensures
        r@ == wire_filter(selected_tld_views(store.extensions@)),
{
    let sel = store.find_selected_extensions();
    let mut tlds: Vec<String> = Vec::new();
    let n = sel.len();
    let mut j: usize = 0;
    while j < n
        invariant
            n == sel@.len(),
            j <= n,
            tlds@.len() == j,
            forall|k: int| 0 <= k < j ==> tlds@[k]@ == sel@[k].tld@,
        decreases n - j,
    {
        tlds.push(sel[j].tld.clone());
        j += 1;
    }
    proof {
        assert(views_of(tlds@) =~= selected_tld_views(store.extensions@));
    }
    extension_filter_of(&tlds)
}

/// The fixed filter of extension codes used when no catalog is at hand.
pub fn get_extensions() -> (r: String)
    ensures
        r@ == wire_filter(default_tld_views()),
{
    let mut tlds: Vec<String> = Vec::new();
    tlds.push(String::from_str("com"));
    tlds.push(String::from_str("net"));
    tlds.push(String::from_str("org"));
    tlds.push(String::from_str("co"));
    tlds.push(String::from_str("io"));
    tlds.push(String::from_str("ai"));
    proof {
        assert(views_of(tlds@) =~= default_tld_views());
    }
    extension_filter_of(&tlds)
}

/// The lookup endpoint answers with JSON records back to back, `}{` between
/// them. This is that text with the records separated by `},{` instead: the
/// body of a well-formed JSON array.
pub open spec fn insert_commas(s: Seq<char>) -> Seq<char>
    decreases s.len(),
{
    if s.len() == 0 {
        s
    } else if s.len() >= 2 && s[0] == '}' && s[1] == '{' {
        seq!['}', ','] + insert_commas(s.drop_first())
    } else {
        seq![s[0]] + insert_commas(s.drop_first())
    }
}

/// The lookup's whole answer framed as one JSON array: commas between the
/// records, brackets around them.
pub open spec fn framed(s: Seq<char>) -> Seq<char> {
    seq!['['] + insert_commas(s) + seq![']']
}

/// Frame the raw text of the lookup's answer as one JSON array, ready for a
/// JSON decoder: a comma between every two back-to-back records, brackets
/// around the whole.
pub fn frame_search_response(raw: &str) -> (r: String)
    ensures
        r@ == framed(raw@),
{
    let n = raw.unicode_len();
    let mut acc = String::new();
    push_char(&mut acc, '[');
    proof {
        assert(raw@.skip(0) =~= raw@);
        assert(acc@ =~= seq!['[']);
    }
    let mut i: usize = 0;
    while i < n
        invariant
            n == raw@.len(),
            i <= n,
            acc@ + insert_commas(raw@.skip(i as int)) == seq!['['] + insert_commas(raw@),
        decreases n - i,
    {
        let c = raw.get_char(i);
        proof {
            assert(raw@.skip(i as int)[0] == c);
            assert(raw@.skip(i as int).drop_first() =~= raw@.skip(i + 1 as int));
            if i + 1 < n {
                assert(raw@.skip(i as int)[1] == raw@[i + 1 as int]);
            }
        }
        if c == '}' && i + 1 < n && raw.get_char(i + 1) == '{' {
            push_char(&mut acc, '}');
            push_char(&mut acc, ',');
            proof {
                assert(insert_commas(raw@.skip(i as int)) == seq!['}', ','] + insert_commas(
                    raw@.skip(i + 1 as int),
                ));
                assert(acc@ + insert_commas(raw@.skip(i + 1 as int)) =~= seq!['['] + insert_commas(
                    raw@,
                ));
            }
        } else {
            push_char(&mut acc, c);
            proof {
                assert(insert_commas(raw@.skip(i as int)) == seq![c] + insert_commas(
                    raw@.skip(i + 1 as int),
                ));
                assert(acc@ + insert_commas(raw@.skip(i + 1 as int)) =~= seq!['['] + insert_commas(
                    raw@,
                ));
            }
        }
        i += 1;
    }
    proof {
        assert(raw@.skip(n as int).len() == 0);
        assert(insert_commas(raw@.skip(n as int)) =~= Seq::empty());
        assert(acc@ =~= seq!['['] + insert_commas(raw@));
    }
    push_char(&mut acc, ']');
    proof {
        assert(acc@ =~= framed(raw@));
    }
    acc
}

} // verus!
