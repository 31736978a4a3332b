//! The allowlist of reward tokens, as it is written in the environment.
use vstd::prelude::*;
use vstd::string::*;

verus! {

/// Unicode's `White_Space` property.
pub open spec fn is_white_space(c: char) -> bool {
    ||| '\u{9}' <= c <= '\u{d}'
    ||| c == '\u{20}'
    ||| c == '\u{85}'
    ||| c == '\u{a0}'
    ||| c == '\u{1680}'
    ||| '\u{2000}' <= c <= '\u{200a}'
    ||| c == '\u{2028}'
    ||| c == '\u{2029}'
    ||| c == '\u{202f}'
    ||| c == '\u{205f}'
    ||| c == '\u{3000}'
}

/// std's `char::is_whitespace`: the character has Unicode's `White_Space`
/// property.
pub assume_specification[ char::is_whitespace ](c: char) -> (found: bool)
    ensures
        found == is_white_space(c),
;

/// The tokens of a list that is written with commas between them.
pub open spec fn tokens(list: Seq<char>) -> Seq<Seq<char>>
    decreases list.len(),
{
    if list.len() == 0 {
        seq![Seq::empty()]
    } else {
        let before = tokens(list.drop_last());
        if list.last() == ',' {
            before.push(Seq::empty())
        } else {
            before.update(before.len() - 1, before.last().push(list.last()))
        }
    }
}

/// Nothing is left of `token` once the white space around it is gone.
pub open spec fn is_blank(token: Seq<char>) -> bool {
    forall|i: int| 0 <= i < token.len() ==> is_white_space(#[trigger] token[i])
}

/// Every token of the list is blank.
pub open spec fn names_no_token(list: Seq<char>) -> bool {
    forall|i: int| 0 <= i < tokens(list).len() ==> is_blank(#[trigger] tokens(list)[i])
}

/// The list holds nothing but commas and white space.
pub open spec fn is_only_separators(list: Seq<char>) -> bool {
    forall|i: int| 0 <= i < list.len() ==> #[trigger] list[i] == ',' || is_white_space(list[i])
}

/// A list has at least one token, and names none exactly where it holds nothing
/// but commas and white space.
pub proof fn empty_list_is_only_separators(list: Seq<char>)
    ensures
        tokens(list).len() > 0,
        names_no_token(list) <==> is_only_separators(list),
    decreases list.len(),
{
    if list.len() == 0 {
        assert(tokens(list)[0] == Seq::<char>::empty());
    } else {
        let rest = list.drop_last();
        let c = list.last();
        let separates = c == ',' || is_white_space(c);
        empty_list_is_only_separators(rest);
        assert(is_only_separators(list) <==> is_only_separators(rest) && separates) by {
            assert(forall|i: int| 0 <= i < rest.len() ==> rest[i] == list[i]);
            if is_only_separators(list) {
                assert forall|i: int| 0 <= i < rest.len() implies #[trigger] rest[i] == ','
                    || is_white_space(rest[i]) by {
                    assert(list[i] == rest[i]);
                }
                assert(list[list.len() - 1] == c);
            }
        }
        assert(names_no_token(list) <==> names_no_token(rest) && separates) by {
            another_character(rest, c);
            assert(rest.push(c) == list);
        }
    }
}

/// What another character at the end does to whether a list names a token.
proof fn another_character(rest: Seq<char>, c: char)
    requires
        tokens(rest).len() > 0,
    ensures
        names_no_token(rest.push(c)) <==> names_no_token(rest) && (c == ',' || is_white_space(c)),
{
    let before = tokens(rest);
    let after = tokens(rest.push(c));
    let end = before.len() - 1;
    assert(rest.push(c).drop_last() == rest);
    if c == ',' {
        assert(forall|i: int| 0 <= i < before.len() ==> after[i] == before[i]);
        assert(after[end + 1] == Seq::<char>::empty());
    } else {
        assert(forall|i: int| 0 <= i < end ==> after[i] == before[i]);
        assert(after[end] == before[end].push(c));
        assert(is_blank(after[end]) <==> is_blank(before[end]) && is_white_space(c)) by {
            if is_blank(after[end]) {
                assert(after[end][before[end].len() as int] == c);
                assert forall|k: int| 0 <= k < before[end].len() implies is_white_space(
                    #[trigger] before[end][k],
                ) by {
                    assert(after[end][k] == before[end][k]);
                }
            }
        }
    }
    if names_no_token(rest.push(c)) {
        assert forall|i: int| 0 <= i < before.len() implies is_blank(#[trigger] before[i]) by {
            assert(is_blank(after[i]));
        }
        assert(is_blank(after[end]));
    }
    if names_no_token(rest) && (c == ',' || is_white_space(c)) {
        assert forall|i: int| 0 <= i < after.len() implies is_blank(#[trigger] after[i]) by {
            if i <= end {
                assert(is_blank(before[i]));
            }
        }
    }
}

/// A list names no token exactly where each of its characters is a comma or has
/// Unicode's `White_Space` property.
pub proof fn empty_list_by_its_characters(list: Seq<char>)
    ensures
        names_no_token(list) <==>
        (forall|i: int|
            0 <= i < list.len() ==> {
                let c = #[trigger] list[i];
                ||| c == ','
                ||| '\u{9}' <= c <= '\u{d}'
                ||| c == '\u{20}'
                ||| c == '\u{85}'
                ||| c == '\u{a0}'
                ||| c == '\u{1680}'
                ||| '\u{2000}' <= c <= '\u{200a}'
                ||| c == '\u{2028}'
                ||| c == '\u{2029}'
                ||| c == '\u{202f}'
                ||| c == '\u{205f}'
                ||| c == '\u{3000}'
            }),
{
    empty_list_is_only_separators(list);
    if names_no_token(list) {
        assert forall|i: int| 0 <= i < list.len() implies #[trigger] list[i] == ','
            || is_white_space(list[i]) by {}
    }
}

/// Two lists with a comma between them name no token exactly where neither does.
pub proof fn lists_join_by_a_comma(first: Seq<char>, second: Seq<char>)
    ensures
        names_no_token(first + seq![','] + second) <==> names_no_token(first) && names_no_token(
            second,
        ),
{
    let joined = first + seq![','] + second;
    let n = first.len() as int;
    empty_list_is_only_separators(first);
    empty_list_is_only_separators(second);
    empty_list_is_only_separators(joined);
    if is_only_separators(joined) {
        assert forall|i: int| 0 <= i < first.len() implies #[trigger] first[i] == ','
            || is_white_space(first[i]) by {
            assert(joined[i] == first[i]);
        }
        assert forall|i: int| 0 <= i < second.len() implies #[trigger] second[i] == ','
            || is_white_space(second[i]) by {
            assert(joined[n + 1 + i] == second[i]);
        }
    }
    if is_only_separators(first) && is_only_separators(second) {
        assert forall|i: int| 0 <= i < joined.len() implies #[trigger] joined[i] == ','
            || is_white_space(joined[i]) by {
            if i < n {
                assert(joined[i] == first[i]);
            } else if i > n {
                assert(joined[i] == second[i - n - 1]);
            }
        }
    }
}

/// Whether the allowlist `value` names no reward token: no part of it between
/// commas holds more than white space.
pub fn reward_token_allowlist_is_empty(value: &str) -> (empty: bool)
    ensures
        empty == names_no_token(value@),
        empty <==>
        (forall|i: int|
            0 <= i < value@.len() ==> {
                let c = #[trigger] value@[i];
                ||| c == ','
                ||| '\u{9}' <= c <= '\u{d}'
                ||| c == '\u{20}'
                ||| c == '\u{85}'
                ||| c == '\u{a0}'
                ||| c == '\u{1680}'
                ||| '\u{2000}' <= c <= '\u{200a}'
                ||| c == '\u{2028}'
                ||| c == '\u{2029}'
                ||| c == '\u{202f}'
                ||| c == '\u{205f}'
                ||| c == '\u{3000}'
            }),
{
    proof {
        empty_list_is_only_separators(value@);
        empty_list_by_its_characters(value@);
    }
    for c in walk: value.chars()
        invariant
            walk.seq() == value@,
            names_no_token(value@) <==> is_only_separators(value@),
            forall|i: int|
                0 <= i < walk.index() ==> #[trigger] value@[i] == ',' || is_white_space(value@[i]),
    {
        if c != ',' && !c.is_whitespace() {
            assert(value@[walk.index()] == c);
            return false;
        }
    }
    true
}

} // verus!
