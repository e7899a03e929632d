//! How a conversion is written: a type, or the parameters it brings back,
//! `=`, and a path. The parameters are identifiers with commas between them,
//! between angle brackets or without: `T = Wrapper<T>`, `<K, V> = Map<K, V>`.

use vstd::prelude::*;

verus! {

/// Whether `c` is white space.
pub open spec fn is_space(c: char) -> bool {
    c == ' ' || c == '\t' || c == '\n' || c == '\r'
}

/// Whether an identifier can start with `c`.
pub open spec fn is_ident_start(c: char) -> bool {
    c == '_' || ('a' as u32 <= c as u32 <= 'z' as u32) || ('A' as u32 <= c as u32 <= 'Z' as u32)
}

/// Whether an identifier can go on with `c`.
pub open spec fn is_ident_part(c: char) -> bool {
    is_ident_start(c) || ('0' as u32 <= c as u32 <= '9' as u32)
}

/// The first place from `i` on that holds no space.
pub open spec fn skip_spaces(text: Seq<char>, i: int) -> int
    decreases text.len() - i,
{
    if 0 <= i < text.len() && is_space(text[i]) {
        skip_spaces(text, i + 1)
    } else {
        i
    }
}

/// The first place from `i` on that holds no part of an identifier.
pub open spec fn ident_end(text: Seq<char>, i: int) -> int
    decreases text.len() - i,
{
    if 0 <= i < text.len() && is_ident_part(text[i]) {
        ident_end(text, i + 1)
    } else {
        i
    }
}

/// Whether an identifier starts at `i`.
pub open spec fn ident_at(text: Seq<char>, i: int) -> bool {
    0 <= i < text.len() && is_ident_start(text[i])
}

/// The place after the identifier at `i` and the spaces behind it.
pub open spec fn after_ident(text: Seq<char>, i: int) -> int {
    skip_spaces(text, ident_end(text, i))
}

/// Whether a comma and one more identifier follow at `i`.
pub open spec fn another_at(text: Seq<char>, i: int) -> bool {
    0 <= i < text.len() && text[i] == ',' && ident_at(text, skip_spaces(text, i + 1))
}

/// The identifiers of the list that starts with the identifier at `i`.
pub open spec fn list_idents(text: Seq<char>, i: int) -> Seq<Seq<char>>
    decreases text.len() - i,
{
    if ident_at(text, i) {
        let next = after_ident(text, i);
        let first = seq![text.subrange(i, ident_end(text, i))];
        if another_at(text, next) && skip_spaces(text, next + 1) > i {
            first + list_idents(text, skip_spaces(text, next + 1))
        } else {
            first
        }
    } else {
        Seq::empty()
    }
}

/// The place after the list that starts with the identifier at `i`.
pub open spec fn list_end(text: Seq<char>, i: int) -> int
    decreases text.len() - i,
{
    if ident_at(text, i) {
        let next = after_ident(text, i);
        if another_at(text, next) && skip_spaces(text, next + 1) > i {
            list_end(text, skip_spaces(text, next + 1))
        } else {
            next
        }
    } else {
        i
    }
}

/// Where a text opens with a list of identifiers and `=`: the place where
/// the list starts and the place of the `=`. A list that opens with `<` ends
/// with `>`.
pub open spec fn generic_form(text: Seq<char>) -> Option<(int, int)> {
    let open = skip_spaces(text, 0);
    let bracketed = 0 <= open < text.len() && text[open] == '<';
    let start = if bracketed {
        skip_spaces(text, open + 1)
    } else {
        open
    };
    if ident_at(text, start) {
        let stop = list_end(text, start);
        let closed = !bracketed || (0 <= stop < text.len() && text[stop] == '>');
        let sign = if bracketed {
            skip_spaces(text, stop + 1)
        } else {
            stop
        };
        if closed && 0 <= sign < text.len() && text[sign] == '=' {
            Some((start, sign))
        } else {
            None
        }
    } else {
        None
    }
}

/// A conversion as written, its types still text.
pub enum ConversionSyntax {
    /// A concrete type.
    Type { text: String },
    /// The parameters brought back, and the path that follows the `=`.
    Generic { generic_ident: Vec<String>, path: String },
}

fn space(c: char) -> (r: bool)
    ensures
        r == is_space(c),
{
    c == ' ' || c == '\t' || c == '\n' || c == '\r'
}

fn ident_start(c: char) -> (r: bool)
    ensures
        r == is_ident_start(c),
{
    let code = c as u32;
    c == '_' || (97 <= code && code <= 122) || (65 <= code && code <= 90)
}

fn ident_part(c: char) -> (r: bool)
    ensures
        r == is_ident_part(c),
{
    let code = c as u32;
    ident_start(c) || (48 <= code && code <= 57)
}

fn spaces_end(text: &str, n: usize, from: usize) -> (r: usize)
    requires
        n == text@.len(),
        from <= n,
    ensures
        r == skip_spaces(text@, from as int),
        from <= r <= n,
{
    let mut i = from;
    while i < n && space(text.get_char(i))
        invariant
            from <= i <= n,
            n == text@.len(),
            skip_spaces(text@, from as int) == skip_spaces(text@, i as int),
        decreases n - i,
    {
        i += 1;
    }
    i
}

fn identifier_end(text: &str, n: usize, from: usize) -> (r: usize)
    requires
        n == text@.len(),
        from <= n,
    ensures
        r == ident_end(text@, from as int),
        from <= r <= n,
{
    let mut i = from;
    while i < n && ident_part(text.get_char(i))
        invariant
            from <= i <= n,
            n == text@.len(),
            ident_end(text@, from as int) == ident_end(text@, i as int),
        decreases n - i,
    {
        i += 1;
    }
    i
}

fn starts_ident(text: &str, n: usize, at: usize) -> (r: bool)
    requires
        n == text@.len(),
    ensures
        r == ident_at(text@, at as int),
{
    at < n && ident_start(text.get_char(at))
}

/// Reads the list of identifiers that starts with the identifier at `start`.
fn read_list(text: &str, n: usize, start: usize) -> (r: (Vec<String>, usize))
    requires
        n == text@.len(),
        ident_at(text@, start as int),
    ensures
        Seq::new(r.0@.len(), |i: int| r.0@[i]@) == list_idents(text@, start as int),
        r.1 == list_end(text@, start as int),
        r.1 <= n,
{
    let mut idents: Vec<String> = Vec::new();
    let mut at = start;
    loop
        invariant
            n == text@.len(),
            ident_at(text@, at as int),
            list_idents(text@, start as int) == Seq::new(idents@.len(), |i: int| idents@[i]@)
                + list_idents(text@, at as int),
            list_end(text@, start as int) == list_end(text@, at as int),
        decreases n - at,
    {
        let ghost before = Seq::new(idents@.len(), |i: int| idents@[i]@);
        let end = identifier_end(text, n, at);
        let next = spaces_end(text, n, end);
        let ident = text.substring_char(at, end).to_owned();
        idents.push(ident);
        assert(Seq::new(idents@.len(), |i: int| idents@[i]@) =~= before.push(
            text@.subrange(at as int, end as int),
        ));
        if next < n && text.get_char(next) == ',' {
            let more = spaces_end(text, n, next + 1);
            if starts_ident(text, n, more) {
                assert(more > at);
                assert(list_idents(text@, at as int) =~= seq![
                    text@.subrange(at as int, end as int),
                ] + list_idents(text@, more as int));
                at = more;
                continue ;
            }
        }
        assert(list_idents(text@, at as int) =~= seq![text@.subrange(at as int, end as int)]);
        return (idents, next);
    }
}

impl ConversionSyntax {
    /// Reads a conversion: where the text opens with a list of identifiers
    /// and `=`, the identifiers and what follows the `=`; else the text as a
    /// type.
    pub fn parse(input: &str) -> (r: ConversionSyntax)
        ensures
            match generic_form(input@) {
                Some((start, sign)) => {
                    &&& r matches ConversionSyntax::Generic { generic_ident, path }
                    &&& Seq::new(generic_ident@.len(), |i: int| generic_ident@[i]@) == list_idents(
                        input@,
                        start,
                    )
                    &&& path@ == input@.subrange(sign + 1, input@.len() as int)
                },
                None => r matches ConversionSyntax::Type { text } && text@ == input@,
            },
    {
        let n = input.unicode_len();
        let open = spaces_end(input, n, 0);
        let bracketed = open < n && input.get_char(open) == '<';
        let start = if bracketed {
            spaces_end(input, n, open + 1)
        } else {
            open
        };
        if starts_ident(input, n, start) {
            let (generic_ident, stop) = read_list(input, n, start);
            let closed = !bracketed || (stop < n && input.get_char(stop) == '>');
            if closed {
                let sign = if bracketed {
                    spaces_end(input, n, stop + 1)
                } else {
                    stop
                };
                if sign < n && input.get_char(sign) == '=' {
                    let path = input.substring_char(sign + 1, n).to_owned();
                    return ConversionSyntax::Generic { generic_ident, path };
                }
            }
        }
        ConversionSyntax::Type { text: input.to_owned() }
    }
}

} // verus!
