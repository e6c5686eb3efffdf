use crate::SchemaError;
use vstd::prelude::*;
use vstd::string::*;

verus! {

/// Splitting on commas, exactly as the explicit name list is read: the
/// segments between commas, in order, each possibly empty.  An input
/// with no comma is one segment; every comma starts a new one.
pub open spec fn split_commas(s: Seq<char>) -> Seq<Seq<char>>
    decreases s.len(),
{
    if s.len() == 0 {
        seq![Seq::<char>::empty()]
    } else if s[0] == ',' {
        seq![Seq::<char>::empty()] + split_commas(s.drop_first())
    } else {
        let rest = split_commas(s.drop_first());
        seq![seq![s[0]] + rest[0]] + rest.drop_first()
    }
}

/// A comma-free string is a single segment.
proof fn lemma_split_no_comma(s: Seq<char>)
    requires
        forall|j: int| 0 <= j < s.len() ==> s[j] != ',',
    ensures
        split_commas(s) == seq![s],
    decreases s.len(),
{
    if s.len() == 0 {
        assert(split_commas(s) =~~= seq![s]);
    } else {
        assert(forall|j: int|
            0 <= j < s.drop_first().len() ==> #[trigger] s.drop_first()[j] != ',');
        lemma_split_no_comma(s.drop_first());
        assert(seq![s[0]] + s.drop_first() =~= s);
        assert(split_commas(s) =~~= seq![s]);
    }
}

/// Splitting at the first comma: everything before it is the first
/// segment, and the rest splits on its own.
proof fn lemma_split_at_comma(s: Seq<char>, k: int)
    requires
        0 <= k < s.len(),
        s[k] == ',',
        forall|j: int| 0 <= j < k ==> s[j] != ',',
    ensures
        split_commas(s) == seq![s.subrange(0, k)] + split_commas(s.subrange(k + 1, s.len() as int)),
    decreases k,
{
    if k == 0 {
        assert(s.subrange(0, 0) =~= Seq::<char>::empty());
        assert(s.subrange(1, s.len() as int) =~= s.drop_first());
    } else {
        let df = s.drop_first();
        assert(forall|j: int| 0 <= j < k - 1 ==> #[trigger] df[j] != ',');
        lemma_split_at_comma(df, k - 1);
        assert(seq![s[0]] + df.subrange(0, k - 1) =~= s.subrange(0, k));
        assert(df.subrange(k, df.len() as int) =~= s.subrange(k + 1, s.len() as int));
        let rest = split_commas(df);
        assert(rest == seq![df.subrange(0, k - 1)] + split_commas(
            df.subrange(k, df.len() as int),
        ));
        assert(rest[0] == df.subrange(0, k - 1));
        assert(rest.drop_first() =~~= split_commas(df.subrange(k, df.len() as int)));
        assert(split_commas(s) =~~= seq![s.subrange(0, k)] + split_commas(
            s.subrange(k + 1, s.len() as int),
        ));
    }
}

/// Split an explicit name list on commas.
fn split_commas_exec(s: &str) -> (parts: Vec<String>)
    ensures
        parts.deep_view() == split_commas(s@),
{
    let n = s.unicode_len();
    let mut parts: Vec<String> = Vec::new();
    let mut seg_start: usize = 0;
    let mut i: usize = 0;
    proof {
        assert(s@.subrange(0, n as int) =~= s@);
        assert(parts.deep_view() + split_commas(s@) =~~= split_commas(s@));
    }
    while i < n
        invariant
            0 <= seg_start <= i <= n,
            n == s@.len(),
            forall|j: int| seg_start <= j < i ==> s@[j] != ',',
            split_commas(s@) == parts.deep_view() + split_commas(
                s@.subrange(seg_start as int, n as int),
            ),
        decreases n - i,
    {
        let c = s.get_char(i);
        if c == ',' {
            let seg = s.substring_char(seg_start, i).to_owned();
            let ghost old_parts = parts.deep_view();
            parts.push(seg);
            proof {
                let tail = s@.subrange(seg_start as int, n as int);
                assert(tail[i - seg_start] == s@[i as int]);
                assert(forall|j: int| 0 <= j < i - seg_start ==> #[trigger] tail[j] != ',');
                lemma_split_at_comma(tail, i - seg_start);
                assert(tail.subrange(0, i - seg_start) =~= s@.subrange(
                    seg_start as int,
                    i as int,
                ));
                assert(tail.subrange(i - seg_start + 1, tail.len() as int) =~= s@.subrange(
                    i + 1 as int,
                    n as int,
                ));
                assert(parts.deep_view() =~~= old_parts.push(seg@));
                assert(old_parts.push(seg@) + split_commas(s@.subrange(i + 1 as int, n as int))
                    =~~= old_parts + (seq![seg@] + split_commas(
                    s@.subrange(i + 1 as int, n as int),
                )));
            }
            seg_start = i + 1;
        }
        i = i + 1;
    }
    let seg = s.substring_char(seg_start, n).to_owned();
    let ghost old_parts = parts.deep_view();
    parts.push(seg);
    proof {
        let tail = s@.subrange(seg_start as int, n as int);
        lemma_split_no_comma(tail);
        assert(parts.deep_view() =~~= old_parts.push(seg@));
        assert(old_parts.push(seg@) =~~= old_parts + seq![tail]);
    }
    parts
}

/// `std::path::PathBuf` carries the source file's name; the core only
/// ever derives the default table name from it.
#[verifier::external_type_specification]
#[verifier::external_body]
pub struct ExPathBuf(std::path::PathBuf);

/// Relies on `std::path::Path::file_stem` and `std::ffi::OsStr::to_str`:
/// the portion of the file name before its extension, if the path has one
/// and it is valid text.
#[verifier::external_body]
fn path_stem(p: &std::path::PathBuf) -> (r: Option<String>) {
    match p.file_stem() {
        Some(stem) => match stem.to_str() {
            Some(s) => Some(s.to_owned()),
            None => None,
        },
        None => None,
    }
}

/// What `str::to_lowercase` returns: a pure function of the characters
/// alone, the same in every process and on every machine.
pub uninterp spec fn lower_of(s: Seq<char>) -> Seq<char>;

/// Relies on `str::to_lowercase`: the Unicode-lowercased text, a function
/// of the characters alone; an empty string stays empty.
#[verifier::external_body]
pub(crate) fn to_lowercase_string(s: &str) -> (r: String)
    ensures
        r@ == lower_of(s@),
        s@.len() == 0 ==> r@.len() == 0,
{
    s.to_lowercase()
}

/// The whitespace characters: the members of the Unicode White_Space
/// set, each of which becomes an underscore in a column name.
pub open spec fn is_white_char(c: char) -> bool {
    ||| c == ' '
    ||| c == '\t'
    ||| c == '\n'
    ||| c == '\r'
    ||| c == '\u{b}'
    ||| c == '\u{c}'
    ||| c == '\u{85}'
    ||| c == '\u{a0}'
    ||| c == '\u{1680}'
    ||| ('\u{2000}' <= c && c <= '\u{200a}')
    ||| c == '\u{2028}'
    ||| c == '\u{2029}'
    ||| c == '\u{202f}'
    ||| c == '\u{205f}'
    ||| c == '\u{3000}'
}

/// Whether `c` is a whitespace character, at run time.
fn white_char(c: char) -> (r: bool)
    ensures
        r == is_white_char(c),
{
    c == ' ' || c == '\t' || c == '\n' || c == '\r' || c == '\u{b}' || c == '\u{c}'
        || c == '\u{85}' || c == '\u{a0}' || c == '\u{1680}' || ('\u{2000}' <= c && c
        <= '\u{200a}') || c == '\u{2028}' || c == '\u{2029}' || c == '\u{202f}' || c
        == '\u{205f}' || c == '\u{3000}'
}

/// Whitespace characters become underscores; every other character
/// stays.
pub open spec fn replace_spaces(s: Seq<char>) -> Seq<char> {
    s.map_values(
        |c: char|
            if is_white_char(c) {
                '_'
            } else {
                c
            },
    )
}

/// How one header field becomes a column name: lowercased, with
/// whitespace replaced by underscores.
pub open spec fn header_name(s: Seq<char>) -> Seq<char> {
    replace_spaces(lower_of(s))
}

/// The fallback alphabet: one lowercase letter per column.
pub open spec fn alphabet() -> Seq<char> {
    "abcdefghijklmnopqrstuvwxyz"@
}

/// The first `n` fallback letter names, each a single letter.
pub open spec fn letter_names(n: int) -> Seq<Seq<char>> {
    Seq::new(n as nat, |i: int| alphabet().subrange(i, i + 1))
}

/// Which names the columns get.  Exactly one source is active: an
/// explicit override list splits on commas and must have one name per
/// column; otherwise the header names the columns when headers are on;
/// otherwise the fallback letters do, for at most 26 columns.
pub open spec fn resolve_names_spec(
    columns: Option<Seq<char>>,
    no_header: bool,
    header: Seq<Seq<char>>,
) -> Result<Seq<Seq<char>>, SchemaError> {
    match columns {
        Some(c) => {
            let parts = split_commas(c);
            if parts.len() == header.len() {
                Ok(parts)
            } else {
                Err(SchemaError::ColumnCountMismatch)
            }
        },
        None => if !no_header {
            Ok(header.map_values(|h: Seq<char>| header_name(h)))
        } else if header.len() <= 26 {
            Ok(letter_names(header.len() as int))
        } else {
            Err(SchemaError::UnsupportedColumnCount)
        },
    }
}

/// Replace every space of `s` with an underscore.
fn replace_spaces_exec(s: &str) -> (r: String)
    ensures
        r@ == replace_spaces(s@),
{
    let n = s.unicode_len();
    let mut out = String::new();
    let mut seg_start: usize = 0;
    let mut i: usize = 0;
    proof {
        reveal_strlit("_");
        assert(out@ =~= replace_spaces(s@.subrange(0, 0)));
    }
    while i < n
        invariant
            0 <= seg_start <= i <= n,
            n == s@.len(),
            forall|j: int| seg_start <= j < i ==> !is_white_char(#[trigger] s@[j]),
            out@ == replace_spaces(s@.subrange(0, seg_start as int)),
        decreases n - i,
    {
        let c = s.get_char(i);
        if white_char(c) {
            let chunk = s.substring_char(seg_start, i);
            out.append(chunk);
            out.append("_");
            proof {
                reveal_strlit("_");
                assert(replace_spaces(s@.subrange(0, i + 1 as int)) =~= replace_spaces(
                    s@.subrange(0, seg_start as int),
                ) + s@.subrange(seg_start as int, i as int) + "_"@);
            }
            seg_start = i + 1;
        }
        i = i + 1;
    }
    let chunk = s.substring_char(seg_start, n);
    out.append(chunk);
    proof {
        assert(replace_spaces(s@) =~= replace_spaces(s@.subrange(0, seg_start as int))
            + s@.subrange(seg_start as int, n as int));
    }
    out
}

/// Name the columns from the header fields.
fn header_names_exec(header: &Vec<String>) -> (r: Vec<String>)
    ensures
        r.deep_view() == header.deep_view().map_values(|h: Seq<char>| header_name(h)),
{
    let mut r: Vec<String> = Vec::new();
    let mut i: usize = 0;
    while i < header.len()
        invariant
            0 <= i <= header@.len(),
            r.deep_view() == header.deep_view().take(i as int).map_values(
                |h: Seq<char>| header_name(h),
            ),
        decreases header@.len() - i,
    {
        let low = to_lowercase_string(header[i].as_str());
        let name = replace_spaces_exec(low.as_str());
        let ghost old_r = r.deep_view();
        r.push(name);
        proof {
            assert(r.deep_view() =~~= old_r.push(name@));
            assert(header.deep_view().take(i + 1).map_values(|h: Seq<char>| header_name(h))
                =~~= header.deep_view().take(i as int).map_values(
                |h: Seq<char>| header_name(h),
            ).push(header_name(header.deep_view()[i as int])));
        }
        i = i + 1;
    }
    proof {
        assert(header.deep_view().take(header@.len() as int) =~~= header.deep_view());
    }
    r
}

/// The first `n` fallback letter names.
fn letter_names_exec(n: usize) -> (r: Vec<String>)
    requires
        n <= 26,
    ensures
        r.deep_view() == letter_names(n as int),
{
    let letters = "abcdefghijklmnopqrstuvwxyz";
    proof {
        reveal_strlit("abcdefghijklmnopqrstuvwxyz");
    }
    let mut r: Vec<String> = Vec::new();
    let mut i: usize = 0;
    while i < n
        invariant
            0 <= i <= n <= 26,
            letters@ == alphabet(),
            letters@.len() == 26,
            r.deep_view() == letter_names(i as int),
        decreases n - i,
    {
        let name = letters.substring_char(i, i + 1).to_owned();
        let ghost old_r = r.deep_view();
        r.push(name);
        proof {
            assert(r.deep_view() =~~= old_r.push(name@));
            assert(letter_names(i + 1) =~~= letter_names(i as int).push(
                alphabet().subrange(i as int, i + 1),
            ));
        }
        i = i + 1;
    }
    r
}

/// Resolve the column names from the one active source: the explicit
/// override list if given, else the header when headers are on, else the
/// fallback letters.  The override list must have one name per column,
/// and the fallback supports at most 26 columns.
pub fn get_column_names(columns: Option<&str>, no_header: bool, header: &Vec<String>) -> (r:
    Result<Vec<String>, SchemaError>)
    ensures
        match r {
            Ok(names) => resolve_names_spec(columns.deep_view(), no_header, header.deep_view())
                == Ok::<Seq<Seq<char>>, SchemaError>(names.deep_view()),
            Err(e) => resolve_names_spec(columns.deep_view(), no_header, header.deep_view())
                == Err::<Seq<Seq<char>>, SchemaError>(e),
        },
{
    match columns {
        Some(list) => {
            let parts = split_commas_exec(list);
            if parts.len() == header.len() {
                Ok(parts)
            } else {
                Err(SchemaError::ColumnCountMismatch)
            }
        },
        None => {
            if !no_header {
                Ok(header_names_exec(header))
            } else if header.len() <= 26 {
                Ok(letter_names_exec(header.len()))
            } else {
                Err(SchemaError::UnsupportedColumnCount)
            }
        },
    }
}

/// Name-resolution precedence.  An explicit override list decides the
/// names by itself: the header's contents and the header flag play no
/// part.  With no override and headers on, the header decides them, and
/// the fallback letters play no part.
pub proof fn lemma_name_precedence(
    c: Seq<char>,
    no_header1: bool,
    no_header2: bool,
    header1: Seq<Seq<char>>,
    header2: Seq<Seq<char>>,
)
    requires
        header1.len() == header2.len(),
    ensures
        resolve_names_spec(Some(c), no_header1, header1) == resolve_names_spec(
            Some(c),
            no_header2,
            header2,
        ),
        resolve_names_spec(None, false, header1) == Ok::<Seq<Seq<char>>, SchemaError>(
            header1.map_values(|h: Seq<char>| header_name(h)),
        ),
{
}

/// The fixed fallback used when neither an explicit table name nor a
/// usable file name is available.
pub open spec fn fallback_table_name() -> Seq<char> {
    "csvpsql"@
}

/// How the final table name relates to the configured name and the stem
/// of the source file's name.
pub open spec fn table_name_spec(
    table_name: Option<Seq<char>>,
    stem: Option<Seq<char>>,
) -> Seq<char> {
    match table_name {
        Some(n) => n,
        None => match stem {
            Some(s) => s,
            None => fallback_table_name(),
        },
    }
}

/// The decision tail of table naming, once the file stem is known:
/// exact for every answer.  An explicit name wins; otherwise the stem;
/// otherwise the fixed fallback.
pub fn resolve_table_name(table_name: Option<String>, stem: Option<String>) -> (r: String)
    ensures
        r@ == table_name_spec(table_name.deep_view(), stem.deep_view()),
{
    match table_name {
        Some(n) => n,
        None => match stem {
            Some(s) => s,
            None => fallback_name(),
        },
    }
}

/// Resolve the table's name: an explicit name wins; otherwise the stem of
/// the source file's name; otherwise the fixed fallback.
pub fn get_table_name(table_name: Option<String>, file: Option<std::path::PathBuf>) -> (r: String)
    ensures
        table_name matches Some(n) ==> r@ == n@,
        (table_name is None && file is None) ==> r@ == fallback_table_name(),
        exists|stem: Option<Seq<char>>|
            r@ == #[trigger] table_name_spec(table_name.deep_view(), stem),
{
    let stem: Option<String> = if table_name.is_none() {
        match &file {
            Some(f) => path_stem(f),
            None => None,
        }
    } else {
        None
    };
    let ghost stem_view = stem.deep_view();
    let r = resolve_table_name(table_name, stem);
    proof {
        assert(r@ == table_name_spec(table_name.deep_view(), stem_view));
    }
    r
}

/// The fallback table name as a run-time string.
fn fallback_name() -> (r: String)
    ensures
        r@ == fallback_table_name(),
{
    String::from_str("csvpsql")
}

} // verus!
