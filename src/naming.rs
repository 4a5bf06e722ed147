use crate::grid::SliceError;
use vstd::prelude::*;
use vstd::string::StringExecFns;

verus! {

/// The character of a decimal digit `d < 10`.
pub open spec fn digit_char(d: nat) -> char {
    if d == 0 {
        '0'
    } else if d == 1 {
        '1'
    } else if d == 2 {
        '2'
    } else if d == 3 {
        '3'
    } else if d == 4 {
        '4'
    } else if d == 5 {
        '5'
    } else if d == 6 {
        '6'
    } else if d == 7 {
        '7'
    } else if d == 8 {
        '8'
    } else {
        '9'
    }
}

pub open spec fn is_digit(c: char) -> bool {
    '0' <= c <= '9'
}

/// `n` written in decimal, most significant digit first, without leading zeros.
pub open spec fn decimal(n: nat) -> Seq<char>
    decreases n,
{
    if n < 10 {
        seq![digit_char(n)]
    } else {
        decimal(n / 10).push(digit_char(n % 10))
    }
}

/// The literal holding the single digit `d`.
fn digit_str(d: u64) -> (s: &'static str)
    requires
        d < 10,
    ensures
        s@ == seq![digit_char(d as nat)],
{
    proof {
        reveal_strlit("0");
        reveal_strlit("1");
        reveal_strlit("2");
        reveal_strlit("3");
        reveal_strlit("4");
        reveal_strlit("5");
        reveal_strlit("6");
        reveal_strlit("7");
        reveal_strlit("8");
        reveal_strlit("9");
    }
    if d == 0 {
        "0"
    } else if d == 1 {
        "1"
    } else if d == 2 {
        "2"
    } else if d == 3 {
        "3"
    } else if d == 4 {
        "4"
    } else if d == 5 {
        "5"
    } else if d == 6 {
        "6"
    } else if d == 7 {
        "7"
    } else if d == 8 {
        "8"
    } else {
        "9"
    }
}

/// `n` written in decimal.
pub fn decimal_string(n: u64) -> (s: String)
    ensures
        s@ == decimal(n as nat),
    decreases n,
{
    if n < 10 {
        String::from_str(digit_str(n))
    } else {
        let mut s = decimal_string(n / 10);
        s.append(digit_str(n % 10));
        assert(s@ =~= decimal(n as nat));
        s
    }
}

/// The file name of the tile at (`col`, `row`): `subimage_<col+1>_<row+1>.jpg`.
pub open spec fn tile_file_name_spec(col: nat, row: nat) -> Seq<char> {
    "subimage_"@ + decimal(col + 1) + "_"@ + decimal(row + 1) + ".jpg"@
}

/// The name of the file that holds the tile at (`col_index`, `row_index`):
/// both indices 1-based, column first.
pub fn tile_file_name(col_index: u32, row_index: u32) -> (name: String)
    ensures
        name@ == tile_file_name_spec(col_index as nat, row_index as nat),
{
    let mut name = String::from_str("subimage_");
    let c = decimal_string(col_index as u64 + 1);
    name.append(c.as_str());
    name.append("_");
    let r = decimal_string(row_index as u64 + 1);
    name.append(r.as_str());
    name.append(".jpg");
    name
}

/// What the platform's path rules take as the base name of `path`, its
/// extension stripped; `None` where the path has no file name.
pub uninterp spec fn file_stem_of(path: Seq<char>) -> Option<Seq<char>>;

/// Relies on `std::path::Path::file_stem`: the base name of the last path
/// component without its extension, or `None` where there is no file name.
#[verifier::external_body]
fn file_stem(path: &str) -> (r: Option<String>)
    ensures
        r matches Some(s) ==> file_stem_of(path@) == Some(s@),
        r is None ==> file_stem_of(path@) is None,
{
    match std::path::Path::new(path).file_stem() {
        Some(stem) => Some(stem.to_string_lossy().into_owned()),
        None => None,
    }
}

/// The directory that receives the tiles of the image at `path`:
/// `sub_images/<stem>`, where the path has a stem.
pub open spec fn output_dir_spec(path: Seq<char>) -> Option<Seq<char>> {
    match file_stem_of(path) {
        Some(stem) => Some("sub_images/"@ + stem),
        None => None,
    }
}

/// The output directory for the image at `input_path`: `sub_images/` followed
/// by the input's base name without extension.
pub fn output_dir(input_path: &str) -> (r: Result<String, SliceError>)
    ensures
        r is Err <==> output_dir_spec(input_path@) is None,
        r matches Err(e) ==> e == SliceError::NoFileStem,
        r matches Ok(dir) ==> output_dir_spec(input_path@) == Some(dir@),
{
    match file_stem(input_path) {
        Some(stem) => {
            let mut dir = String::from_str("sub_images/");
            dir.append(stem.as_str());
            Ok(dir)
        },
        None => Err(SliceError::NoFileStem),
    }
}

/// The line reported after a run: `Sliced <path> into <count> sub-images of
/// size <width>x<height>`.
pub open spec fn summary_line_spec(path: Seq<char>, count: nat, width: nat, height: nat) -> Seq<char> {
    "Sliced "@ + path + " into "@ + decimal(count) + " sub-images of size "@ + decimal(width) + "x"@
        + decimal(height)
}

/// The summary of slicing `input_path` into `rows × columns` tiles of
/// `tile_width × tile_height` pixels.
pub fn summary_line(input_path: &str, rows: u32, columns: u32, tile_width: u32, tile_height: u32) -> (line: String)
    ensures
        line@ == summary_line_spec(
            input_path@,
            rows as nat * columns as nat,
            tile_width as nat,
            tile_height as nat,
        ),
{
    assert(rows as nat * columns as nat <= u32::MAX as nat * u32::MAX as nat) by (nonlinear_arith);
    let count = rows as u64 * columns as u64;
    let mut line = String::from_str("Sliced ");
    line.append(input_path);
    line.append(" into ");
    let c = decimal_string(count);
    line.append(c.as_str());
    line.append(" sub-images of size ");
    let w = decimal_string(tile_width as u64);
    line.append(w.as_str());
    line.append("x");
    let h = decimal_string(tile_height as u64);
    line.append(h.as_str());
    line
}

/// A decimal numeral is a non-empty run of digits.
pub proof fn lemma_decimal_is_digits(n: nat)
    ensures
        decimal(n).len() >= 1,
        forall|i: int| 0 <= i < decimal(n).len() ==> is_digit(#[trigger] decimal(n)[i]),
    decreases n,
{
    if n >= 10 {
        lemma_decimal_is_digits(n / 10);
    }
}

/// Distinct numbers are written differently.
pub proof fn lemma_decimal_injective(a: nat, b: nat)
    requires
        decimal(a) == decimal(b),
    ensures
        a == b,
    decreases a,
{
    let da = decimal(a);
    if a < 10 && b < 10 {
        assert(da[0] == digit_char(a));
        assert(decimal(b)[0] == digit_char(b));
    } else if a < 10 {
        lemma_decimal_is_digits(b / 10);
        assert(decimal(b).len() >= 2);
    } else if b < 10 {
        lemma_decimal_is_digits(a / 10);
        assert(da.len() >= 2);
    } else {
        let db = decimal(b);
        assert(da.last() == digit_char(a % 10));
        assert(db.last() == digit_char(b % 10));
        assert(decimal(a / 10) =~= da.drop_last());
        assert(decimal(b / 10) =~= db.drop_last());
        lemma_decimal_injective(a / 10, b / 10);
    }
}

/// Two tiles get the same file name only if they are the same cell.
pub proof fn lemma_tile_file_name_injective(c1: nat, r1: nat, c2: nat, r2: nat)
    requires
        tile_file_name_spec(c1, r1) == tile_file_name_spec(c2, r2),
    ensures
        c1 == c2,
        r1 == r2,
{
    reveal_strlit("subimage_");
    reveal_strlit("_");
    reveal_strlit(".jpg");
    let n = tile_file_name_spec(c1, r1);
    let d1 = decimal(c1 + 1);
    let e1 = decimal(r1 + 1);
    let d2 = decimal(c2 + 1);
    let e2 = decimal(r2 + 1);
    lemma_decimal_is_digits(c1 + 1);
    lemma_decimal_is_digits(r1 + 1);
    lemma_decimal_is_digits(c2 + 1);
    lemma_decimal_is_digits(r2 + 1);
    let m1 = d1 + seq!['_'] + e1;
    let m2 = d2 + seq!['_'] + e2;
    assert(n =~= "subimage_"@ + m1 + ".jpg"@);
    assert(n =~= "subimage_"@ + m2 + ".jpg"@);
    assert(m1.len() == m2.len());
    assert(m1 =~= n.subrange(9, n.len() - 4));
    assert(m2 =~= n.subrange(9, n.len() - 4));
    if d1.len() < d2.len() {
        assert(m1[d1.len() as int] == '_');
        assert(m2[d1.len() as int] == d2[d1.len() as int]);
        assert(is_digit(d2[d1.len() as int]));
    } else if d2.len() < d1.len() {
        assert(m2[d2.len() as int] == '_');
        assert(m1[d2.len() as int] == d1[d2.len() as int]);
        assert(is_digit(d1[d2.len() as int]));
    } else {
        assert(d1 =~= m1.subrange(0, d1.len() as int));
        assert(d2 =~= m2.subrange(0, d1.len() as int));
        assert(e1 =~= m1.subrange(d1.len() as int + 1, m1.len() as int));
        assert(e2 =~= m2.subrange(d1.len() as int + 1, m1.len() as int));
        lemma_decimal_injective(c1 + 1, c2 + 1);
        lemma_decimal_injective(r1 + 1, r2 + 1);
    }
}

} // verus!
