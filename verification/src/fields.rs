//! Splitting the text of a list of numbers into its fields, and a list of parsed fields into a
//! fixed number of values.

use vstd::prelude::*;
use crate::text::{chars_of, slice_chars, split, split_chars, string_from_chars, trim, trim_range};

verus! {

/// The outcome of taking exactly `n` fields from `items`, one by one: the first failed field
/// ends it with that field's error; running out of fields before `n`, or finding a field after
/// the `n`-th, ends it with `missing`.
pub open spec fn take_fields<T, E>(items: Seq<Result<T, E>>, n: nat, missing: E) -> Result<Seq<T>, E>
    decreases n,
{
    if n == 0 {
        if items.len() > 0 {
            Err(missing)
        } else {
            Ok(Seq::<T>::empty())
        }
    } else if items.len() == 0 {
        Err(missing)
    } else {
        match items[0] {
            Err(e) => Err(e),
            Ok(t) => match take_fields(items.drop_first(), (n - 1) as nat, missing) {
                Ok(rest) => Ok(seq![t] + rest),
                Err(e) => Err(e),
            },
        }
    }
}

fn next_field<T, E>(items: &mut Vec<Result<T, E>>) -> (r: Option<Result<T, E>>)
    ensures
        old(items)@.len() == 0 ==> r is None && final(items)@ == old(items)@,
        old(items)@.len() > 0 ==> r == Some(old(items)@[0]) && final(items)@ == old(items)@.drop_first(),
{
    if items.len() == 0 {
        None
    } else {
        let x = items.remove(0);
        assert(old(items)@.remove(0) =~= old(items)@.drop_first());
        Some(x)
    }
}

/// Takes exactly two fields, as [take_fields] describes.
pub fn take_two<T, E>(items: Vec<Result<T, E>>, missing: E) -> (r: Result<[T; 2], E>)
    ensures
        match take_fields(items@, 2, missing) {
            Ok(s) => r matches Ok(a) && a@ == s,
            Err(e) => r == Err::<[T; 2], E>(e),
        },
{
    proof {
        reveal_with_fuel(take_fields, 5);
    }
    let mut items = items;
    let val0 = match next_field(&mut items) {
        Some(Ok(v)) => v,
        Some(Err(e)) => return Err(e),
        None => return Err(missing),
    };
    let val1 = match next_field(&mut items) {
        Some(Ok(v)) => v,
        Some(Err(e)) => return Err(e),
        None => return Err(missing),
    };
    if items.len() > 0 {
        Err(missing)
    } else {
        let r = [val0, val1];
        assert(r@ =~= seq![val0, val1]);
        assert(seq![val1] + Seq::<T>::empty() =~= seq![val1]);
        Ok(r)
    }
}

/// Takes exactly three fields, as [take_fields] describes.
pub fn take_three<T, E>(items: Vec<Result<T, E>>, missing: E) -> (r: Result<[T; 3], E>)
    ensures
        match take_fields(items@, 3, missing) {
            Ok(s) => r matches Ok(a) && a@ == s,
            Err(e) => r == Err::<[T; 3], E>(e),
        },
{
    proof {
        reveal_with_fuel(take_fields, 5);
    }
    let mut items = items;
    let val0 = match next_field(&mut items) {
        Some(Ok(v)) => v,
        Some(Err(e)) => return Err(e),
        None => return Err(missing),
    };
    let val1 = match next_field(&mut items) {
        Some(Ok(v)) => v,
        Some(Err(e)) => return Err(e),
        None => return Err(missing),
    };
    let val2 = match next_field(&mut items) {
        Some(Ok(v)) => v,
        Some(Err(e)) => return Err(e),
        None => return Err(missing),
    };
    if items.len() > 0 {
        Err(missing)
    } else {
        let r = [val0, val1, val2];
        assert(r@ =~= seq![val0, val1, val2]);
        assert(seq![val2] + Seq::<T>::empty() =~= seq![val2]);
        assert(seq![val1] + seq![val2] =~= seq![val1, val2]);
        assert(seq![val0] + seq![val1, val2] =~= seq![val0, val1, val2]);
        Ok(r)
    }
}

/// Takes exactly four fields, as [take_fields] describes.
pub fn take_four<T, E>(items: Vec<Result<T, E>>, missing: E) -> (r: Result<[T; 4], E>)
    ensures
        match take_fields(items@, 4, missing) {
            Ok(s) => r matches Ok(a) && a@ == s,
            Err(e) => r == Err::<[T; 4], E>(e),
        },
{
    proof {
        reveal_with_fuel(take_fields, 5);
    }
    let mut items = items;
    let val0 = match next_field(&mut items) {
        Some(Ok(v)) => v,
        Some(Err(e)) => return Err(e),
        None => return Err(missing),
    };
    let val1 = match next_field(&mut items) {
        Some(Ok(v)) => v,
        Some(Err(e)) => return Err(e),
        None => return Err(missing),
    };
    let val2 = match next_field(&mut items) {
        Some(Ok(v)) => v,
        Some(Err(e)) => return Err(e),
        None => return Err(missing),
    };
    let val3 = match next_field(&mut items) {
        Some(Ok(v)) => v,
        Some(Err(e)) => return Err(e),
        None => return Err(missing),
    };
    if items.len() > 0 {
        Err(missing)
    } else {
        let r = [val0, val1, val2, val3];
        assert(r@ =~= seq![val0, val1, val2, val3]);
        assert(seq![val3] + Seq::<T>::empty() =~= seq![val3]);
        assert(seq![val2] + seq![val3] =~= seq![val2, val3]);
        assert(seq![val1] + seq![val2, val3] =~= seq![val1, val2, val3]);
        assert(seq![val0] + seq![val1, val2, val3] =~= seq![val0, val1, val2, val3]);
        Ok(r)
    }
}

} // verus!

verus! {

/// The `n` comma separated fields of `s`, each without leading and trailing whitespace, when `s`
/// has exactly `n` of them.
pub open spec fn number_fields_spec(s: Seq<char>, n: nat) -> Option<Seq<Seq<char>>> {
    let pieces = split(s, ',');
    if pieces.len() == n {
        Some(pieces.map_values(|p: Seq<char>| trim(p)))
    } else {
        None
    }
}

/// The text between an opening `{` at the start of `s` and a closing `}` at its end.
pub open spec fn braced_spec(s: Seq<char>) -> Option<Seq<char>> {
    if s.len() >= 2 && s[0] == '{' && s.last() == '}' {
        Some(s.subrange(1, s.len() - 1))
    } else {
        None
    }
}

/// The rows of a grid written `{..}{..}..`: the text after the opening `{` is split at every
/// `{`, and each piece must end with `}`, which is left out.
pub open spec fn braced_rows_spec(s: Seq<char>) -> Option<Seq<Seq<char>>> {
    if s.len() > 0 && s[0] == '{' {
        let rows = split(s.drop_first(), '{');
        if forall|i: int| 0 <= i < rows.len() ==> (#[trigger] rows[i]).len() > 0 && rows[i].last() == '}' {
            Some(rows.map_values(|r: Seq<char>| r.drop_last()))
        } else {
            None
        }
    } else {
        None
    }
}

/// The fields of a grid of `rows` rows of `cols` comma separated fields, written
/// `{a,b,..}{c,d,..}..`, each field without leading and trailing whitespace.
pub open spec fn grid_fields_spec(s: Seq<char>, rows: nat, cols: nat) -> Option<Seq<Seq<Seq<char>>>> {
    match braced_rows_spec(s) {
        Some(r) => if r.len() == rows && forall|i: int| 0 <= i < r.len() ==> #[trigger] number_fields_spec(r[i], cols) is Some {
            Some(r.map_values(|row: Seq<char>| number_fields_spec(row, cols)->0))
        } else {
            None
        },
        None => None,
    }
}

/// The texts of a vector of strings.
pub open spec fn strings_view(v: Seq<String>) -> Seq<Seq<char>> {
    v.map_values(|s: String| s@)
}

/// Splits `text` into exactly `n` comma separated fields, each without leading and trailing
/// whitespace; `None` when it has another number of fields.
///
/// This is the shape of a list of numbers such as a CIE color `x,y,Y`.
pub fn number_fields(text: &str, n: usize) -> (r: Option<Vec<String>>)
    ensures
        match number_fields_spec(text@, n as nat) {
            Some(f) => r matches Some(v) && strings_view(v@) == f,
            None => r is None,
        },
{
    let chars = chars_of(text);
    number_fields_of(&chars, n)
}

fn number_fields_of(chars: &Vec<char>, n: usize) -> (r: Option<Vec<String>>)
    ensures
        match number_fields_spec(chars@, n as nat) {
            Some(f) => r matches Some(v) && strings_view(v@) == f,
            None => r is None,
        },
{
    let pieces = split_chars(chars, ',');
    if pieces.len() != n {
        return None;
    }
    let ghost target = split(chars@, ',').map_values(|p: Seq<char>| trim(p));
    let mut out: Vec<String> = Vec::new();
    let mut i: usize = 0;
    while i < pieces.len()
        invariant
            i <= pieces@.len(),
            pieces@.len() == split(chars@, ',').len(),
            forall|k: int| 0 <= k < pieces@.len() ==> #[trigger] pieces@[k]@ == split(chars@, ',')[k],
            target == split(chars@, ',').map_values(|p: Seq<char>| trim(p)),
            strings_view(out@) == target.subrange(0, i as int),
        decreases pieces@.len() - i,
    {
        let piece = &pieces[i];
        let (a, b) = trim_range(piece, 0, piece.len());
        assert(piece@.subrange(0, piece@.len() as int) =~= piece@);
        let field = string_from_chars(&slice_chars(piece, a, b));
        let ghost before = out@;
        out.push(field);
        assert(strings_view(out@) =~= strings_view(before).push(field@));
        i = i + 1;
        assert(strings_view(out@) =~= target.subrange(0, i as int));
    }
    assert(target.subrange(0, i as int) =~= target);
    Some(out)
}

/// Splits `{a,b,..}` into exactly `n` comma separated fields between the braces, each without
/// leading and trailing whitespace; `None` when the braces are missing or the number of fields
/// differs.
///
/// This is the shape of a vector such as `{x,y,z}`.
pub fn braced_fields(text: &str, n: usize) -> (r: Option<Vec<String>>)
    ensures
        match braced_spec(text@) {
            Some(inner) => match number_fields_spec(inner, n as nat) {
                Some(f) => r matches Some(v) && strings_view(v@) == f,
                None => r is None,
            },
            None => r is None,
        },
{
    let chars = chars_of(text);
    let len = chars.len();
    if len < 2 || chars[0] != '{' || chars[len - 1] != '}' {
        return None;
    }
    let inner = slice_chars(&chars, 1, len - 1);
    number_fields_of(&inner, n)
}

/// Splits a grid `{a,b,..}{c,d,..}..` into exactly `rows` rows of exactly `cols` comma
/// separated fields each, every field without leading and trailing whitespace; `None` when the
/// braces are misplaced or a count differs.
///
/// This is the shape of a transform matrix or a rotation.
pub fn grid_fields(text: &str, rows: usize, cols: usize) -> (r: Option<Vec<Vec<String>>>)
    ensures
        match grid_fields_spec(text@, rows as nat, cols as nat) {
            Some(g) => r matches Some(v) && v@.len() == g.len() && forall|i: int|
                0 <= i < g.len() ==> strings_view(#[trigger] v@[i]@) == g[i],
            None => r is None,
        },
{
    let chars = chars_of(text);
    if chars.len() == 0 || chars[0] != '{' {
        return None;
    }
    let rest = slice_chars(&chars, 1, chars.len());
    assert(rest@ =~= text@.drop_first());
    let pieces = split_chars(&rest, '{');
    let ghost pv = split(rest@, '{');
    assert(pv == split(text@.drop_first(), '{'));
    let mut i: usize = 0;
    while i < pieces.len()
        invariant
            i <= pieces@.len(),
            pieces@.len() == pv.len(),
            forall|k: int| 0 <= k < pieces@.len() ==> #[trigger] pieces@[k]@ == pv[k],
            forall|k: int| 0 <= k < i ==> (#[trigger] pv[k]).len() > 0 && pv[k].last() == '}',
            pv == split(text@.drop_first(), '{'),
            text@.len() > 0 && text@[0] == '{',
        decreases pieces@.len() - i,
    {
        let p = &pieces[i];
        if p.len() == 0 || p[p.len() - 1] != '}' {
            proof {
                assert(p@ == pv[i as int]);
                assert(!(pv[i as int].len() > 0 && pv[i as int].last() == '}'));
                assert(braced_rows_spec(text@) is None);
            }
            return None;
        }
        i = i + 1;
    }
    let ghost bare = pv.map_values(|r: Seq<char>| r.drop_last());
    assert(braced_rows_spec(text@) == Some(bare));
    if pieces.len() != rows {
        return None;
    }
    let mut out: Vec<Vec<String>> = Vec::new();
    let mut j: usize = 0;
    while j < pieces.len()
        invariant
            j <= pieces@.len(),
            pieces@.len() == pv.len(),
            pieces@.len() == rows,
            forall|k: int| 0 <= k < pieces@.len() ==> #[trigger] pieces@[k]@ == pv[k],
            forall|k: int| 0 <= k < pieces@.len() ==> (#[trigger] pv[k]).len() > 0 && pv[k].last() == '}',
            bare == pv.map_values(|r: Seq<char>| r.drop_last()),
            braced_rows_spec(text@) == Some(bare),
            out@.len() == j,
            forall|k: int| 0 <= k < j ==> number_fields_spec(#[trigger] bare[k], cols as nat) is Some
                && strings_view(out@[k]@) == number_fields_spec(bare[k], cols as nat)->0,
        decreases pieces@.len() - j,
    {
        let p = &pieces[j];
        let row = slice_chars(p, 0, p.len() - 1);
        assert(row@ =~= bare[j as int]);
        match number_fields_of(&row, cols) {
            Some(fields) => {
                out.push(fields);
            },
            None => {
                return None;
            },
        }
        j = j + 1;
    }
    Some(out)
}

} // verus!
