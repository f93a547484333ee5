//! The on-disk layout of the Parquet store: partition directories
//! `<root>/<dataset>/symbol=<SYMBOL>/dt=<YYYY-MM-DD>`, part files
//! `part-NNNN.parquet` inside them, the names written while a file is still
//! incomplete, and the quoting of paths inside SQL string literals.
//!
//! Directory listings are read by the caller; the functions here decide on
//! the names they are given.
use vstd::prelude::*;

use crate::text::{
    all_digits, chars_of, decimal_text, digit_value, digits_value, ends_with, has_prefix,
    has_suffix, lemma_decimal_text_roundtrip, owned, parse_u32, parse_unsigned_spec, push_char,
    push_chars, slice_chars, starts_with, string_from_chars, u64_text,
};
use crate::order::lemma_filter_insert;
use crate::time::{day_text, epoch_day_text};

verus! {

/// The views of a sequence of strings.
pub open spec fn names_view(v: Seq<String>) -> Seq<Seq<char>> {
    v.map_values(|s: String| s@)
}

/// The index `N` of a part file named `part-N.parquet`, where `N` is what
/// std's `u32` parser reads (leading zeros and a `+` allowed); `None` for
/// any other name.
pub open spec fn part_index_spec(name: Seq<char>) -> Option<nat> {
    if name.len() >= 13 && has_prefix(name, "part-"@) && has_suffix(name, ".parquet"@) {
        parse_unsigned_spec(name.subrange(5, name.len() - 8), u32::MAX as nat)
    } else {
        None
    }
}

/// The index of the part file `name`, if it is one.
pub fn parse_part_index(name: &str) -> (r: Option<u32>)
    ensures
        r == (match part_index_spec(name@) {
            Some(v) => Some(v as u32),
            None => None::<u32>,
        }),
{
    proof {
        reveal_strlit("part-");
        reveal_strlit(".parquet");
    }
    let chars = chars_of(name);
    if chars.len() < 13 {
        return None;
    }
    if !starts_with(&chars, "part-") || !ends_with(&chars, ".parquet") {
        return None;
    }
    let middle = slice_chars(&chars, 5, chars.len() - 8);
    let text = string_from_chars(middle.as_slice());
    parse_u32(text.as_str())
}

/// The largest part index among `names`, if any of them is a part file.
pub open spec fn max_part_index(names: Seq<Seq<char>>) -> Option<nat>
    decreases names.len(),
{
    if names.len() == 0 {
        None
    } else {
        let rest = max_part_index(names.drop_last());
        match part_index_spec(names.last()) {
            Some(i) => match rest {
                Some(m) => Some(if i > m { i } else { m }),
                None => Some(i),
            },
            None => rest,
        }
    }
}

/// The index for a new part file in a directory holding `names`: one past
/// the largest existing part index, or 0 when there is none.
pub open spec fn next_part_index_spec(names: Seq<Seq<char>>) -> nat {
    match max_part_index(names) {
        Some(m) => m + 1,
        None => 0,
    }
}

proof fn lemma_max_part_index_bounds(names: Seq<Seq<char>>)
    ensures
        forall|i: int|
            0 <= i < names.len() && #[trigger] part_index_spec(names[i]) is Some ==> max_part_index(
                names,
            ) is Some && part_index_spec(names[i])->0 <= max_part_index(names)->0,
        max_part_index(names) is Some ==> exists|i: int|
            0 <= i < names.len() && #[trigger] part_index_spec(names[i]) == max_part_index(names),
        max_part_index(names) matches Some(m) ==> m <= u32::MAX,
    decreases names.len(),
{
    if names.len() > 0 {
        let rest = names.drop_last();
        lemma_max_part_index_bounds(rest);
        assert forall|i: int|
            0 <= i < names.len() && #[trigger] part_index_spec(names[i]) is Some implies max_part_index(
                names,
            ) is Some && part_index_spec(names[i])->0 <= max_part_index(names)->0 by {
            if i < names.len() - 1 {
                assert(names[i] == rest[i]);
            }
        }
        if max_part_index(names) is Some {
            if part_index_spec(names.last()) == max_part_index(names) {
                assert(part_index_spec(names[names.len() - 1]) == max_part_index(names));
            } else {
                let j = choose|j: int|
                    0 <= j < rest.len() && #[trigger] part_index_spec(rest[j]) == max_part_index(rest);
                assert(names[j] == rest[j]);
            }
        }
    }
}

/// The index to give the next part file written into a directory whose
/// entries are `names`. The directory must not already hold a part file
/// with the largest possible index.
pub fn next_part_index(names: &Vec<String>) -> (r: u32)
    requires
        max_part_index(names_view(names@)) != Some(u32::MAX as nat),
    ensures
        r == next_part_index_spec(names_view(names@)),
{
    let mut best: Option<u32> = None;
    let mut i: usize = 0;
    while i < names.len()
        invariant
            i <= names@.len(),
            best == (match max_part_index(names_view(names@).subrange(0, i as int)) {
                Some(m) => Some(m as u32),
                None => None::<u32>,
            }),
            max_part_index(names_view(names@).subrange(0, i as int)) matches Some(m) ==> m <= u32::MAX,
        decreases names@.len() - i,
    {
        let idx = parse_part_index(names[i].as_str());
        proof {
            let all = names_view(names@);
            assert(all.subrange(0, i + 1).drop_last() == all.subrange(0, i as int));
            assert(all.subrange(0, i + 1).last() == names@[i as int]@);
            lemma_max_part_index_bounds(all.subrange(0, i + 1));
        }
        best = match idx {
            Some(v) => match best {
                Some(m) => Some(if v > m { v } else { m }),
                None => Some(v),
            },
            None => best,
        };
        i = i + 1;
    }
    proof {
        assert(names_view(names@).subrange(0, names@.len() as int) == names_view(names@));
    }
    match best {
        Some(m) => m + 1,
        None => 0,
    }
}

/// Whether any of `names` is a part file.
pub fn has_existing_parts(names: &Vec<String>) -> (r: bool)
    ensures
        r == exists|i: int| 0 <= i < names@.len() && (#[trigger] part_index_spec(names@[i]@)) is Some,
{
    for i in 0..names.len()
        invariant
            forall|j: int| 0 <= j < i ==> (#[trigger] part_index_spec(names@[j]@)) is None,
    {
        if parse_part_index(names[i].as_str()).is_some() {
            return true;
        }
    }
    false
}

/// `text` left-padded with `0` to at least `width` characters (the `{:0w}`
/// format of an unsigned number).
pub open spec fn zero_padded(text: Seq<char>, width: nat) -> Seq<char> {
    if text.len() >= width {
        text
    } else {
        Seq::new((width - text.len()) as nat, |i: int| '0') + text
    }
}

/// The four-digit (at least) zero-padded decimal rendering of an index.
pub open spec fn index_text(index: nat) -> Seq<char> {
    zero_padded(decimal_text(index), 4)
}

/// `part-NNNN.parquet`.
pub open spec fn part_file_name_spec(index: nat) -> Seq<char> {
    "part-"@ + index_text(index) + ".parquet"@
}

/// `part-NNNN.parquet.tmp`, the name a part file has while being written.
pub open spec fn tmp_part_file_name_spec(index: nat) -> Seq<char> {
    part_file_name_spec(index) + ".tmp"@
}

fn push_index_text(s: &mut String, index: u32)
    ensures
        final(s)@ == old(s)@ + index_text(index as nat),
{
    let digits = u64_text(index as u64);
    let count = chars_of(digits.as_str()).len();
    let pad: usize = if count < 4 {
        4 - count
    } else {
        0
    };
    let ghost start = s@;
    for k in 0..pad
        invariant
            s@ == start + Seq::new(k as nat, |i: int| '0'),
    {
        push_char(s, '0');
        proof {
            assert(Seq::new((k + 1) as nat, |i: int| '0') == Seq::new(k as nat, |i: int| '0').push('0'));
        }
    }
    s.append(digits.as_str());
    proof {
        let zs = Seq::new(pad as nat, |i: int| '0');
        assert(start + zs + digits@ == start + (zs + digits@));
        if digits@.len() >= 4 {
            assert(zs + digits@ == digits@);
        }
    }
}

/// The name of the part file with index `index`.
pub fn part_file_name(index: u32) -> (r: String)
    ensures
        r@ == part_file_name_spec(index as nat),
{
    let mut s = owned("part-");
    push_index_text(&mut s, index);
    s.append(".parquet");
    s
}

/// The name the part file with index `index` has while it is being written.
pub fn tmp_part_file_name(index: u32) -> (r: String)
    ensures
        r@ == tmp_part_file_name_spec(index as nat),
{
    let mut s = part_file_name(index);
    s.append(".tmp");
    s
}

proof fn lemma_digits_value_leading_zeros(z: nat, t: Seq<char>)
    ensures
        digits_value(Seq::new(z, |i: int| '0') + t) == digits_value(t),
        all_digits(t) ==> all_digits(Seq::new(z, |i: int| '0') + t),
    decreases t.len(),
{
    let zs = Seq::new(z, |i: int| '0');
    if t.len() == 0 {
        assert(zs + t == zs);
        lemma_digits_value_zeros(z);
    } else {
        lemma_digits_value_leading_zeros(z, t.drop_last());
        assert((zs + t).drop_last() == zs + t.drop_last());
        assert((zs + t).last() == t.last());
    }
    if all_digits(t) {
        assert forall|i: int| 0 <= i < (zs + t).len() implies crate::text::is_digit(
            #[trigger] (zs + t)[i],
        ) by {
            if i >= z {
                assert((zs + t)[i] == t[i - z]);
            }
        }
    }
}

proof fn lemma_digits_value_zeros(z: nat)
    ensures
        digits_value(Seq::new(z, |i: int| '0')) == 0,
    decreases z,
{
    if z > 0 {
        lemma_digits_value_zeros((z - 1) as nat);
        assert(Seq::new(z, |i: int| '0').drop_last() == Seq::new((z - 1) as nat, |i: int| '0'));
        assert(digit_value('0') == 0);
    }
}

/// Reading back the name of a part file gives its index; the name it has
/// while being written is no part file at all.
pub proof fn lemma_part_file_name_roundtrip(index: nat)
    requires
        index <= u32::MAX,
    ensures
        part_index_spec(part_file_name_spec(index)) == Some(index),
        part_index_spec(tmp_part_file_name_spec(index)) is None,
{
    reveal_strlit("part-");
    reveal_strlit(".parquet");
    reveal_strlit(".tmp");
    lemma_decimal_text_roundtrip(index);
    let d = decimal_text(index);
    let t = index_text(index);
    let name = part_file_name_spec(index);
    if d.len() < 4 {
        lemma_digits_value_leading_zeros((4 - d.len()) as nat, d);
    }
    assert(all_digits(t) && digits_value(t) == index);
    assert(t.len() >= 1);
    if t[0] == '+' {
        assert(crate::text::is_digit(t[0]));
    }
    assert(name.subrange(0, 5) == "part-"@);
    assert(name.subrange(name.len() - 8, name.len() as int) == ".parquet"@);
    assert(name.subrange(5, name.len() - 8) == t);
    let tmp = tmp_part_file_name_spec(index);
    assert(tmp[tmp.len() - 1] == 'p');
    assert(".parquet"@[7] == 't');
    if has_suffix(tmp, ".parquet"@) {
        assert(tmp.subrange(tmp.len() - 8, tmp.len() as int)[7] == tmp[tmp.len() - 1]);
    }
}

/// `segment` appended to the path `base` as std's `PathBuf::push` does on
/// Unix: an absolute segment replaces the path; otherwise a `/` is put
/// between them unless `base` is empty or already ends with one.
pub open spec fn join_path(base: Seq<char>, segment: Seq<char>) -> Seq<char> {
    if segment.len() > 0 && segment[0] == '/' {
        segment
    } else if base.len() == 0 || base.last() == '/' {
        base + segment
    } else {
        base + seq!['/'] + segment
    }
}

/// The path `base` joined with `segment` (std `Path::join`).
pub fn join(base: &str, segment: &str) -> (r: String)
    ensures
        r@ == join_path(base@, segment@),
{
    let b = chars_of(base);
    let seg = chars_of(segment);
    if seg.len() > 0 && seg[0] == '/' {
        return owned(segment);
    }
    let mut s = owned(base);
    if b.len() > 0 && b[b.len() - 1] != '/' {
        push_char(&mut s, '/');
    }
    s.append(segment);
    s
}

/// The directory of one symbol and calendar day of a dataset:
/// `<root>/<dataset>/symbol=<SYMBOL>/dt=<YYYY-MM-DD>`, or `None` for a day
/// outside the calendar.
pub open spec fn partition_dir_spec(root: Seq<char>, dataset: Seq<char>, symbol: Seq<char>, day: int) -> Option<Seq<char>> {
    match epoch_day_text(day) {
        Some(t) => Some(
            join_path(
                join_path(join_path(root, dataset), "symbol="@ + symbol),
                "dt="@ + t,
            ),
        ),
        None => None,
    }
}

/// The partition directory of `symbol` on the calendar day `day` (days
/// after 1970-01-01) in `dataset` under `data_root`.
pub fn partition_dir(data_root: &str, dataset: &str, symbol: &str, day: i64) -> (r: Option<String>)
    ensures
        r matches Some(p) ==> partition_dir_spec(data_root@, dataset@, symbol@, day as int) == Some(p@),
        r is None ==> partition_dir_spec(data_root@, dataset@, symbol@, day as int) is None,
{
    let date = match day_text(day) {
        Some(t) => t,
        None => return None,
    };
    let dataset_dir = join(data_root, dataset);
    let mut symbol_seg = owned("symbol=");
    symbol_seg.append(symbol);
    let symbol_dir = join(dataset_dir.as_str(), symbol_seg.as_str());
    let mut dt_seg = owned("dt=");
    dt_seg.append(date.as_str());
    Some(join(symbol_dir.as_str(), dt_seg.as_str()))
}

/// `s` with every `'` doubled, so that it can stand between `'` quotes in
/// SQL.
pub open spec fn sql_quoted(s: Seq<char>) -> Seq<char>
    decreases s.len(),
{
    if s.len() == 0 {
        s
    } else if s.last() == '\'' {
        sql_quoted(s.drop_last()) + seq!['\'', '\'']
    } else {
        sql_quoted(s.drop_last()).push(s.last())
    }
}

/// A path written for use inside a single-quoted SQL string literal.
pub fn sql_quote_path(path: &str) -> (r: String)
    ensures
        r@ == sql_quoted(path@),
{
    let chars = chars_of(path);
    let mut out = String::new();
    for i in 0..chars.len()
        invariant
            chars@ == path@,
            out@ == sql_quoted(path@.subrange(0, i as int)),
    {
        let c = chars[i];
        proof {
            let prefix = path@.subrange(0, i + 1);
            assert(prefix.drop_last() == path@.subrange(0, i as int));
            assert(prefix.last() == c);
        }
        if c == '\'' {
            push_char(&mut out, '\'');
            push_char(&mut out, '\'');
            proof {
                assert(out@ == sql_quoted(path@.subrange(0, i as int)) + seq!['\'', '\'']);
            }
        } else {
            push_char(&mut out, c);
        }
    }
    proof {
        assert(path@.subrange(0, chars@.len() as int) == path@);
    }
    out
}

/// Whether a file named `file_name` is one left incomplete by an
/// interrupted write: its extension (the text after the last `.`, when that
/// `.` is not the first character) is `tmp`.
pub open spec fn is_incomplete_write_spec(file_name: Seq<char>) -> bool {
    file_name.len() > 4 && has_suffix(file_name, ".tmp"@)
}

/// Whether the file `file_name` was left incomplete by an interrupted write.
pub fn is_incomplete_write(file_name: &str) -> (r: bool)
    ensures
        r == is_incomplete_write_spec(file_name@),
{
    proof {
        reveal_strlit(".tmp");
    }
    let chars = chars_of(file_name);
    chars.len() > 4 && ends_with(&chars, ".tmp")
}

/// The symbol a partition's symbol directory `name` (`symbol=<SYMBOL>`)
/// names, if it is one.
pub open spec fn symbol_of_dir_spec(name: Seq<char>) -> Option<Seq<char>> {
    if has_prefix(name, "symbol="@) {
        Some(name.subrange(7, name.len() as int))
    } else {
        None
    }
}

/// The day text a partition's day directory `name` (`dt=<YYYY-MM-DD>`)
/// holds, if it is one.
pub open spec fn date_of_dir_spec(name: Seq<char>) -> Option<Seq<char>> {
    if has_prefix(name, "dt="@) {
        Some(name.subrange(3, name.len() as int))
    } else {
        None
    }
}

/// Whether the symbol directory `name` is one to visit under the optional
/// symbol filter.
pub open spec fn symbol_dir_selected(name: Seq<char>, filter: Option<Seq<char>>) -> bool {
    match symbol_of_dir_spec(name) {
        Some(s) => match filter {
            Some(f) => s == f,
            None => true,
        },
        None => false,
    }
}

/// Whether the day directory `name` is one to visit under the optional
/// day filter (a day's text as `chrono` writes it).
pub open spec fn date_dir_selected(name: Seq<char>, filter: Option<int>) -> bool {
    match date_of_dir_spec(name) {
        Some(d) => match filter {
            Some(day) => epoch_day_text(day) == Some(d),
            None => true,
        },
        None => false,
    }
}

/// Whether the symbol directory `name` is selected by `filter`.
pub fn symbol_dir_matches(name: &str, filter: Option<&str>) -> (r: bool)
    ensures
        r == symbol_dir_selected(name@, match filter {
            Some(f) => Some(f@),
            None => None,
        }),
{
    proof {
        reveal_strlit("symbol=");
    }
    let chars = chars_of(name);
    if !starts_with(&chars, "symbol=") {
        return false;
    }
    match filter {
        Some(f) => {
            let rest = slice_chars(&chars, 7, chars.len());
            let fc = chars_of(f);
            chars_equal(&rest, &fc)
        },
        None => true,
    }
}

/// Whether the day directory `name` is selected by the day filter.
pub fn date_dir_matches(name: &str, filter: Option<i64>) -> (r: bool)
    ensures
        r == date_dir_selected(name@, match filter {
            Some(d) => Some(d as int),
            None => None,
        }),
{
    proof {
        reveal_strlit("dt=");
    }
    let chars = chars_of(name);
    if !starts_with(&chars, "dt=") {
        return false;
    }
    match filter {
        Some(day) => {
            let rest = slice_chars(&chars, 3, chars.len());
            match day_text(day) {
                Some(t) => {
                    let tc = chars_of(t.as_str());
                    chars_equal(&rest, &tc)
                },
                None => false,
            }
        },
        None => true,
    }
}

/// Whether two character vectors hold the same characters.
pub fn chars_equal(a: &Vec<char>, b: &Vec<char>) -> (r: bool)
    ensures
        r == (a@ == b@),
{
    if a.len() != b.len() {
        return false;
    }
    for i in 0..a.len()
        invariant
            a@.len() == b@.len(),
            forall|j: int| 0 <= j < i ==> a@[j] == b@[j],
    {
        if a[i] != b[i] {
            return false;
        }
    }
    proof {
        assert(a@ =~= b@);
    }
    true
}

/// The names among `names` that are part files with index `k`, in order.
pub open spec fn with_part_index(names: Seq<Seq<char>>, k: nat) -> Seq<Seq<char>> {
    names.filter(has_part_index(k))
}

/// Whether a name is that of a part file with index `k`.
pub open spec fn has_part_index(k: nat) -> spec_fn(Seq<char>) -> bool {
    |n: Seq<char>| part_index_spec(n) == Some(k)
}

/// The part files among `names`, ordered by index; files with the same
/// index (say `part-1.parquet` and `part-0001.parquet`) keep the order they
/// came in.
pub fn list_part_files(names: &Vec<String>) -> (r: Vec<String>)
    ensures
        forall|i: int| 0 <= i < r@.len() ==> (#[trigger] part_index_spec(r@[i]@)) is Some,
        forall|i: int, j: int|
            0 <= i < j < r@.len() ==> part_index_spec(#[trigger] r@[i]@)->0 <= part_index_spec(
                #[trigger] r@[j]@,
            )->0,
        forall|k: nat| #[trigger]
            with_part_index(names_view(r@), k) == with_part_index(names_view(names@), k),
{
    let mut sorted: Vec<String> = Vec::new();
    let mut keys: Vec<u32> = Vec::new();
    for i in 0..names.len()
        invariant
            sorted@.len() == keys@.len(),
            forall|j: int| 0 <= j < keys@.len() ==> part_index_spec(sorted@[j]@) == Some(#[trigger] keys@[j] as nat),
            forall|a: int, b: int| 0 <= a < b < keys@.len() ==> #[trigger] keys@[a] <= #[trigger] keys@[b],
            forall|k: nat| #[trigger]
                with_part_index(names_view(sorted@), k) == with_part_index(names_view(names@.subrange(0, i as int)), k),
    {
        let ghost before = names_view(names@.subrange(0, i as int));
        proof {
            assert(names_view(names@.subrange(0, i + 1)) =~= before.push(names@[i as int]@));
        }
        match parse_part_index(names[i].as_str()) {
            None => {
                proof {
                    assert forall|k: nat| #[trigger]
                        with_part_index(names_view(sorted@), k) == with_part_index(names_view(names@.subrange(0, i + 1)), k) by {
                        before.lemma_filter_push(names@[i as int]@, has_part_index(k));
                    }
                }
            },
            Some(key) => {
                let mut p: usize = 0;
                while p < keys.len() && keys[p] <= key
                    invariant
                        p <= keys@.len(),
                        forall|j: int| 0 <= j < p ==> #[trigger] keys@[j] <= key,
                    decreases keys@.len() - p,
                {
                    p = p + 1;
                }
                let name = names[i].clone();
                let ghost old_view = names_view(sorted@);
                let ghost old_keys = keys@;
                proof {
                    assert forall|j: int| p <= j < keys@.len() implies #[trigger] keys@[j] > key by {
                        assert(keys@[p as int] <= keys@[j]);
                    }
                    assert forall|k: nat| #[trigger]
                        with_part_index(old_view.insert(p as int, name@), k) == with_part_index(names_view(names@.subrange(0, i + 1)), k) by {
                        let pred = has_part_index(k);
                        assert(with_part_index(old_view, k) == with_part_index(before, k));
                        lemma_filter_insert(old_view, p as int, name@, pred);
                        before.lemma_filter_push(name@, pred);
                        if k == key as nat {
                            let tail = old_view.subrange(p as int, old_view.len() as int);
                            assert forall|j: int| 0 <= j < tail.len() implies !pred(#[trigger] tail[j]) by {
                                assert(tail[j] == sorted@[p + j]@);
                                assert(keys@[p + j] > key);
                            }
                            crate::order::lemma_filter_none(tail, pred);
                            assert(old_view.subrange(0, p as int).filter(pred) + Seq::<Seq<char>>::empty()
                                =~= old_view.subrange(0, p as int).filter(pred));
                            assert(old_view.subrange(0, p as int).filter(pred) + seq![name@]
                                =~= old_view.subrange(0, p as int).filter(pred).push(name@));
                        } else {
                            assert(old_view.subrange(0, p as int).filter(pred) + Seq::<Seq<char>>::empty()
                                =~= old_view.subrange(0, p as int).filter(pred));
                        }
                    }
                }
                sorted.insert(p, name);
                keys.insert(p, key);
                proof {
                    assert(names_view(sorted@) =~= old_view.insert(p as int, name@));
                    assert forall|a: int, b: int| 0 <= a < b < keys@.len() implies #[trigger] keys@[a] <= #[trigger] keys@[b] by {
                        if a < p && b > p {
                            assert(keys@[a] == old_keys[a]);
                            assert(keys@[b] == old_keys[b - 1]);
                        } else if a == p {
                            assert(keys@[b] == old_keys[b - 1]);
                        } else if b == p {
                            assert(keys@[a] == old_keys[a]);
                        } else if a > p {
                            assert(keys@[a] == old_keys[a - 1]);
                            assert(keys@[b] == old_keys[b - 1]);
                        } else {
                            assert(keys@[a] == old_keys[a]);
                            assert(keys@[b] == old_keys[b]);
                        }
                    }
                }
            },
        }
    }
    proof {
        assert(names@.subrange(0, names@.len() as int) == names@);
        assert forall|i: int| 0 <= i < sorted@.len() implies (#[trigger] part_index_spec(sorted@[i]@)) is Some by {
            assert(part_index_spec(sorted@[i]@) == Some(keys@[i] as nat));
        }
        assert forall|i: int, j: int| 0 <= i < j < sorted@.len() implies part_index_spec(#[trigger] sorted@[i]@)->0
            <= part_index_spec(#[trigger] sorted@[j]@)->0 by {
            assert(part_index_spec(sorted@[i]@) == Some(keys@[i] as nat));
            assert(part_index_spec(sorted@[j]@) == Some(keys@[j] as nat));
        }
    }
    sorted
}

/// One symbol directory of a dataset, as listed by the caller: its name and
/// the names of the directories inside it.
#[derive(Debug, Clone)]
pub struct SymbolListing {
    pub symbol_dir: String,
    pub day_dirs: Vec<String>,
}

/// Selects the day directories that the day filter lets through.
pub open spec fn date_selector(filter: Option<int>) -> spec_fn(Seq<char>) -> bool {
    |d: Seq<char>| date_dir_selected(d, filter)
}

/// Pairs a day directory with its symbol directory.
pub open spec fn paired_with(symbol_dir: Seq<char>) -> spec_fn(Seq<char>) -> (Seq<char>, Seq<char>) {
    |d: Seq<char>| (symbol_dir, d)
}

/// The (symbol directory, day directory) pairs of one listed symbol
/// directory that the day filter lets through, in listing order.
pub open spec fn day_pairs(entry: SymbolListing, date_filter: Option<int>) -> Seq<(Seq<char>, Seq<char>)> {
    names_view(entry.day_dirs@).filter(date_selector(date_filter)).map_values(paired_with(entry.symbol_dir@))
}

/// The partitions the filters select, in listing order.
pub open spec fn selected_partitions(
    listing: Seq<SymbolListing>,
    symbol_filter: Option<Seq<char>>,
    date_filter: Option<int>,
) -> Seq<(Seq<char>, Seq<char>)>
    decreases listing.len(),
{
    if listing.len() == 0 {
        Seq::empty()
    } else {
        let last = listing.last();
        selected_partitions(listing.drop_last(), symbol_filter, date_filter) + if symbol_dir_selected(
            last.symbol_dir@,
            symbol_filter,
        ) {
            day_pairs(last, date_filter)
        } else {
            Seq::empty()
        }
    }
}

/// The path of the partition directory `p` of `dataset` under `root`.
pub open spec fn partition_path(root: Seq<char>, dataset: Seq<char>, p: (Seq<char>, Seq<char>)) -> Seq<char> {
    join_path(join_path(join_path(root, dataset), p.0), p.1)
}

/// Maps a partition to its path.
pub open spec fn path_of(root: Seq<char>, dataset: Seq<char>) -> spec_fn((Seq<char>, Seq<char>)) -> Seq<char> {
    |p: (Seq<char>, Seq<char>)| partition_path(root, dataset, p)
}

/// The views of pairs of strings.
pub open spec fn pair_views(v: Seq<(String, String)>) -> Seq<(Seq<char>, Seq<char>)> {
    v.map_values(|p: (String, String)| (p.0@, p.1@))
}

/// The partition directories of `dataset` under `data_root` that the
/// optional symbol and day filters select, as paths in path order (the
/// order of their symbol directory names, then of their day directory
/// names). `listing` holds the symbol directories found under the dataset
/// directory, each with the directories inside it.
pub fn discover_partitions(
    data_root: &str,
    dataset: &str,
    listing: &Vec<SymbolListing>,
    symbol_filter: Option<&str>,
    date_filter: Option<i64>,
) -> (r: Vec<String>)
    ensures
        names_view(r@) == selected_partitions(
            listing@,
            match symbol_filter {
                Some(f) => Some(f@),
                None => None,
            },
            match date_filter {
                Some(d) => Some(d as int),
                None => None,
            },
        ).sort_by(crate::order::pair_order()).map_values(path_of(data_root@, dataset@)),
{
    let ghost sf = match symbol_filter {
        Some(f) => Some(f@),
        None => None,
    };
    let ghost df = match date_filter {
        Some(d) => Some(d as int),
        None => None,
    };
    let mut pairs: Vec<(String, String)> = Vec::new();
    for i in 0..listing.len()
        invariant
            pair_views(pairs@) == selected_partitions(listing@.subrange(0, i as int), sf, df),
            sf == (match symbol_filter {
                Some(f) => Some(f@),
                None => None,
            }),
            df == (match date_filter {
                Some(d) => Some(d as int),
                None => None::<int>,
            }),
    {
        let entry = &listing[i];
        let ghost done = selected_partitions(listing@.subrange(0, i as int), sf, df);
        proof {
            let upto = listing@.subrange(0, i + 1);
            assert(upto.drop_last() == listing@.subrange(0, i as int));
            assert(upto.last() == *entry);
        }
        if symbol_dir_matches(entry.symbol_dir.as_str(), symbol_filter) {
            for j in 0..entry.day_dirs.len()
                invariant
                    pair_views(pairs@) == done + names_view(entry.day_dirs@.subrange(0, j as int)).filter(
                        date_selector(df),
                    ).map_values(paired_with(entry.symbol_dir@)),
                    df == (match date_filter {
                        Some(d) => Some(d as int),
                        None => None::<int>,
                    }),
            {
                let ghost prev = names_view(entry.day_dirs@.subrange(0, j as int));
                let day = &entry.day_dirs[j];
                proof {
                    assert(names_view(entry.day_dirs@.subrange(0, j + 1)) == prev.push(day@));
                    prev.lemma_filter_push(day@, date_selector(df));
                }
                if date_dir_matches(day.as_str(), date_filter) {
                    let ghost before = pair_views(pairs@);
                    pairs.push((entry.symbol_dir.clone(), day.clone()));
                    proof {
                        let f = prev.filter(date_selector(df));
                        assert(f.push(day@).map_values(paired_with(entry.symbol_dir@))
                            == f.map_values(paired_with(entry.symbol_dir@)).push((entry.symbol_dir@, day@)));
                        assert(pair_views(pairs@) == before.push((entry.symbol_dir@, day@)));
                    }
                }
            }
            proof {
                assert(entry.day_dirs@.subrange(0, entry.day_dirs@.len() as int) == entry.day_dirs@);
            }
        } else {
            proof {
                assert(done + Seq::<(Seq<char>, Seq<char>)>::empty() == done);
            }
        }
    }
    proof {
        assert(listing@.subrange(0, listing@.len() as int) == listing@);
    }
    let ghost selected = pair_views(pairs@);
    let sorted = sort_pairs(pairs);
    proof {
        crate::order::lemma_pair_order_total();
        selected.lemma_sort_by_ensures(crate::order::pair_order());
        vstd::seq_lib::lemma_sorted_unique(pair_views(sorted@), selected.sort_by(crate::order::pair_order()), crate::order::pair_order());
    }
    let dataset_dir = join(data_root, dataset);
    let mut out: Vec<String> = Vec::new();
    for k in 0..sorted.len()
        invariant
            dataset_dir@ == join_path(data_root@, dataset@),
            names_view(out@) == pair_views(sorted@).subrange(0, k as int).map_values(path_of(data_root@, dataset@)),
    {
        let symbol_path = join(dataset_dir.as_str(), sorted[k].0.as_str());
        let path = join(symbol_path.as_str(), sorted[k].1.as_str());
        let ghost before = names_view(out@);
        out.push(path);
        proof {
            assert(pair_views(sorted@).subrange(0, k + 1) == pair_views(sorted@).subrange(0, k as int).push(
                (sorted@[k as int].0@, sorted@[k as int].1@),
            ));
            assert(names_view(out@) == before.push(path@));
        }
    }
    proof {
        assert(pair_views(sorted@).subrange(0, sorted@.len() as int) == pair_views(sorted@));
    }
    out
}

/// `pairs` sorted in pair order (an insertion sort).
fn sort_pairs(pairs: Vec<(String, String)>) -> (r: Vec<(String, String)>)
    ensures
        vstd::relations::sorted_by(pair_views(r@), crate::order::pair_order()),
        pair_views(r@).to_multiset() == pair_views(pairs@).to_multiset(),
{
    proof {
        crate::order::lemma_pair_order_total();
    }
    let le = Ghost(crate::order::pair_order());
    let mut sorted: Vec<(String, String)> = Vec::new();
    proof {
        assert(pair_views(sorted@) =~= Seq::<(Seq<char>, Seq<char>)>::empty());
        assert(pair_views(pairs@.subrange(0, 0)) =~= Seq::<(Seq<char>, Seq<char>)>::empty());
    }
    for i in 0..pairs.len()
        invariant
            le@ == crate::order::pair_order(),
            vstd::relations::total_ordering(le@),
            vstd::relations::sorted_by(pair_views(sorted@), le@),
            pair_views(sorted@).to_multiset() == pair_views(pairs@.subrange(0, i as int)).to_multiset(),
    {
        let item = &pairs[i];
        let ghost x = (item.0@, item.1@);
        let mut p: usize = 0;
        while p < sorted.len() && pair_le_exec(&sorted[p], item)
            invariant
                p <= sorted@.len(),
                le@ == crate::order::pair_order(),
                x == (item.0@, item.1@),
                forall|j: int| 0 <= j < p ==> (le@)(#[trigger] pair_views(sorted@)[j], x),
            decreases sorted@.len() - p,
        {
            proof {
                assert(pair_views(sorted@)[p as int] == (sorted@[p as int].0@, sorted@[p as int].1@));
            }
            p = p + 1;
        }
        let ghost old_view = pair_views(sorted@);
        proof {
            assert forall|j: int| p <= j < old_view.len() implies (le@)(x, #[trigger] old_view[j]) by {
                assert(!(le@)(old_view[p as int], x));
                assert((le@)(old_view[p as int], x) || (le@)(x, old_view[p as int]));
                if j > p {
                    assert((le@)(old_view[p as int], old_view[j]));
                }
            }
        }
        sorted.insert(p, (item.0.clone(), item.1.clone()));
        proof {
            let nv = pair_views(sorted@);
            assert(nv == old_view.insert(p as int, x));
            assert forall|a: int, b: int| 0 <= a < b < nv.len() implies #[trigger] (le@)(nv[a], nv[b]) by {
                if a < p && b > p {
                    assert((le@)(old_view[a], x));
                    assert((le@)(x, old_view[b - 1]));
                } else if a == p {
                    assert(nv[b] == old_view[b - 1]);
                } else if b == p {
                    assert(nv[a] == old_view[a]);
                } else if a > p {
                    assert(nv[a] == old_view[a - 1]);
                    assert(nv[b] == old_view[b - 1]);
                } else {
                    assert(nv[a] == old_view[a]);
                    assert(nv[b] == old_view[b]);
                }
            }
            vstd::seq_lib::to_multiset_insert(old_view, p as int, x);
            assert(pair_views(pairs@.subrange(0, i + 1)) == pair_views(pairs@.subrange(0, i as int)).push(x));
            pair_views(pairs@.subrange(0, i as int)).to_multiset_ensures();
        }
    }
    proof {
        assert(pairs@.subrange(0, pairs@.len() as int) == pairs@);
    }
    sorted
}

fn pair_le_exec(a: &(String, String), b: &(String, String)) -> (r: bool)
    ensures
        r == crate::order::pair_le((a.0@, a.1@), (b.0@, b.1@)),
{
    if a.0 == b.0 {
        crate::order::text_le_exec(a.1.as_str(), b.1.as_str())
    } else {
        crate::order::text_le_exec(a.0.as_str(), b.0.as_str())
    }
}

} // verus!
