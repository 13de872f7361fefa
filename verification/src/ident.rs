//! Turns raw module names into identifiers: a sanitising step of this
//! library's own, followed by a case conversion.
use vstd::prelude::*;
use vstd::string::*;
use crate::text::chars_of;

verus! {

/// A lower-case ASCII letter.
pub open spec fn is_lower(c: char) -> bool {
    'a' <= c && c <= 'z'
}

/// An upper-case ASCII letter.
pub open spec fn is_upper(c: char) -> bool {
    'A' <= c && c <= 'Z'
}

/// An ASCII digit.
pub open spec fn is_digit(c: char) -> bool {
    '0' <= c && c <= '9'
}

/// An ASCII letter.
pub open spec fn is_letter(c: char) -> bool {
    is_lower(c) || is_upper(c)
}

/// An ASCII letter, an ASCII digit or an underscore.
pub open spec fn is_ident_char(c: char) -> bool {
    is_letter(c) || is_digit(c) || c == '_'
}

/// Whether `s` holds nothing but lower-case ASCII letters, ASCII digits
/// and underscores.
pub open spec fn all_snake_chars(s: Seq<char>) -> bool {
    forall|i: int|
        0 <= i < s.len() ==> is_lower(#[trigger] s[i]) || is_digit(s[i]) || s[i] == '_'
}

/// Whether `s` holds nothing but ASCII letters and ASCII digits.
pub open spec fn all_alnum(s: Seq<char>) -> bool {
    forall|i: int| 0 <= i < s.len() ==> is_letter(#[trigger] s[i]) || is_digit(s[i])
}

/// Whether `s` holds nothing but identifier characters.
pub open spec fn all_ident_chars(s: Seq<char>) -> bool {
    forall|i: int| 0 <= i < s.len() ==> is_ident_char(#[trigger] s[i])
}

/// A name that may stand inside an identifier: not empty, identifier
/// characters only.
pub open spec fn is_ident_fragment(s: Seq<char>) -> bool {
    s.len() > 0 && all_ident_chars(s)
}

/// A valid identifier: not empty, identifier characters only, a letter
/// first.
pub open spec fn is_identifier(s: Seq<char>) -> bool {
    s.len() > 0 && is_letter(s[0]) && all_ident_chars(s)
}

/// Whether the first character of `s` that is no underscore exists and is
/// a letter.
pub open spec fn leads_with_letter(s: Seq<char>) -> bool
    decreases s.len(),
{
    s.len() > 0 && (is_letter(s[0]) || (s[0] == '_' && leads_with_letter(s.skip(1))))
}

/// Whether `s` ends with `suffix`.
pub open spec fn ends_with(s: Seq<char>, suffix: Seq<char>) -> bool {
    s.len() >= suffix.len() && s.skip(s.len() - suffix.len()) == suffix
}

pub open spec fn dll_suffix() -> Seq<char> {
    seq!['.', 'd', 'l', 'l']
}

pub open spec fn so_suffix() -> Seq<char> {
    seq!['.', 's', 'o']
}

pub open spec fn dylib_suffix() -> Seq<char> {
    seq!['.', 'd', 'y', 'l', 'i', 'b']
}

/// How many leading characters of a module name remain once its library
/// extension (`.dll`, `.so` or `.dylib`) is cut off; the whole length
/// where it has none.
pub open spec fn stem_len(name: Seq<char>) -> nat {
    if ends_with(name, dll_suffix()) {
        (name.len() - 4) as nat
    } else if ends_with(name, so_suffix()) {
        (name.len() - 3) as nat
    } else if ends_with(name, dylib_suffix()) {
        (name.len() - 6) as nat
    } else {
        name.len()
    }
}

/// The identifier characters of `s`, in order.
pub open spec fn keep_ident_chars(s: Seq<char>) -> Seq<char>
    decreases s.len(),
{
    if s.len() == 0 {
        Seq::empty()
    } else if is_ident_char(s.last()) {
        keep_ident_chars(s.drop_last()).push(s.last())
    } else {
        keep_ident_chars(s.drop_last())
    }
}

/// What is put before a name that does not lead with a letter.
pub open spec fn module_prefix() -> Seq<char> {
    seq!['m', 'o', 'd', 'u', 'l', 'e', '_']
}

/// The identifier characters of a module name without its library
/// extension.
pub open spec fn kept_chars(name: Seq<char>) -> Seq<char> {
    keep_ident_chars(name.take(stem_len(name) as int))
}

/// The base token of a module name: the name without its library
/// extension and without any character that no identifier may hold. Where
/// what is left does not lead with a letter (it is empty, or a digit comes
/// first), `module_` is put before it, so that every name has a token
/// that leads with a letter.
pub open spec fn base_token(name: Seq<char>) -> Seq<char> {
    if leads_with_letter(kept_chars(name)) {
        kept_chars(name)
    } else {
        module_prefix() + kept_chars(name)
    }
}

/// Every base token holds identifier characters only and leads with a
/// letter.
pub proof fn lemma_base_token(name: Seq<char>)
    ensures
        all_ident_chars(base_token(name)),
        leads_with_letter(base_token(name)),
        base_token(name).len() > 0,
{
    let kept = kept_chars(name);
    lemma_keep_ident_chars(name.take(stem_len(name) as int));
    if !leads_with_letter(kept) {
        let token = module_prefix() + kept;
        assert(token[0] == 'm');
        assert forall|i: int| 0 <= i < token.len() implies is_ident_char(#[trigger] token[i]) by {
            if i >= 7 {
                assert(token[i] == kept[i - 7]);
            }
        }
    }
}

/// What is kept holds identifier characters only.
pub proof fn lemma_keep_ident_chars(s: Seq<char>)
    ensures
        all_ident_chars(keep_ident_chars(s)),
        keep_ident_chars(s).len() <= s.len(),
        all_ident_chars(s) ==> keep_ident_chars(s) == s,
    decreases s.len(),
{
    if s.len() > 0 {
        lemma_keep_ident_chars(s.drop_last());
        if all_ident_chars(s) {
            assert(is_ident_char(s[s.len() - 1]));
            assert forall|i: int| 0 <= i < s.drop_last().len() implies is_ident_char(
                #[trigger] s.drop_last()[i],
            ) by {
                assert(s.drop_last()[i] == s[i]);
            }
            assert(s.drop_last().push(s.last()) =~= s);
        }
    } else {
        assert(keep_ident_chars(s) =~= s);
    }
}

/// Whether `c` is an ASCII letter, an ASCII digit or an underscore.
pub fn ident_char(c: char) -> (r: bool)
    ensures
        r == is_ident_char(c),
{
    ('a' <= c && c <= 'z') || ('A' <= c && c <= 'Z') || ('0' <= c && c <= '9') || c == '_'
}

fn stem_length(cs: &Vec<char>) -> (n: usize)
    ensures
        n == stem_len(cs@),
        n <= cs.len(),
{
    let len: usize = cs.len();
    if len >= 4 && cs[len - 4] == '.' && cs[len - 3] == 'd' && cs[len - 2] == 'l' && cs[len - 1]
        == 'l' {
        assert(cs@.skip(len - 4) =~= dll_suffix());
        return len - 4;
    }
    proof {
        if ends_with(cs@, dll_suffix()) {
            let tail = cs@.skip(len - 4);
            assert(tail[0] == '.' && tail[1] == 'd' && tail[2] == 'l' && tail[3] == 'l');
        }
    }
    if len >= 3 && cs[len - 3] == '.' && cs[len - 2] == 's' && cs[len - 1] == 'o' {
        assert(cs@.skip(len - 3) =~= so_suffix());
        return len - 3;
    }
    proof {
        if ends_with(cs@, so_suffix()) {
            let tail = cs@.skip(len - 3);
            assert(tail[0] == '.' && tail[1] == 's' && tail[2] == 'o');
        }
    }
    if len >= 6 && cs[len - 6] == '.' && cs[len - 5] == 'd' && cs[len - 4] == 'y' && cs[len - 3]
        == 'l' && cs[len - 2] == 'i' && cs[len - 1] == 'b' {
        assert(cs@.skip(len - 6) =~= dylib_suffix());
        return len - 6;
    }
    proof {
        if ends_with(cs@, dylib_suffix()) {
            let tail = cs@.skip(len - 6);
            assert(tail[0] == '.' && tail[1] == 'd' && tail[2] == 'y' && tail[3] == 'l' && tail[4]
                == 'i' && tail[5] == 'b');
        }
    }
    len
}

/// Whether `c` is an ASCII letter.
pub fn letter(c: char) -> (r: bool)
    ensures
        r == is_letter(c),
{
    ('a' <= c && c <= 'z') || ('A' <= c && c <= 'Z')
}

/// Whether the first character of `cs` that is no underscore exists and
/// is a letter.
fn leads(cs: &Vec<char>) -> (r: bool)
    ensures
        r == leads_with_letter(cs@),
{
    let mut i: usize = 0;
    assert(cs@.skip(0) =~= cs@);
    while i < cs.len() && cs[i] == '_'
        invariant
            i <= cs.len(),
            leads_with_letter(cs@) == leads_with_letter(cs@.skip(i as int)),
        decreases cs.len() - i,
    {
        assert(cs@.skip(i as int)[0] == cs@[i as int]);
        assert(cs@.skip(i as int).skip(1) =~= cs@.skip(i + 1));
        i += 1;
    }
    if i < cs.len() {
        assert(cs@.skip(i as int)[0] == cs@[i as int]);
        letter(cs[i])
    } else {
        false
    }
}

/// Sanitises a raw module name into its base token.
pub fn format_module_name(name: &str) -> (r: String)
    ensures
        r@ == base_token(name@),
        all_ident_chars(r@),
        leads_with_letter(r@),
{
    let cs = chars_of(name);
    let end: usize = stem_length(&cs);
    let mut kept: Vec<char> = Vec::new();
    let mut i: usize = 0;
    while i < end
        invariant
            i <= end <= cs.len(),
            kept@ == keep_ident_chars(cs@.take(i as int)),
        decreases end - i,
    {
        assert(cs@.take(i + 1).drop_last() == cs@.take(i as int));
        if ident_char(cs[i]) {
            kept.push(cs[i]);
        }
        i += 1;
    }
    let mut out = String::new();
    if !leads(&kept) {
        out.append("module_");
        proof {
            reveal_strlit("module_");
            assert(out@ =~= module_prefix());
        }
    }
    let ghost head = out@;
    let mut k: usize = 0;
    while k < kept.len()
        invariant
            k <= kept.len(),
            out@ == head + kept@.take(k as int),
        decreases kept.len() - k,
    {
        out.push(kept[k]);
        assert(kept@.take(k + 1) =~= kept@.take(k as int).push(kept@[k as int]));
        k += 1;
    }
    proof {
        assert(kept@.take(kept.len() as int) =~= kept@);
        assert(Seq::<char>::empty() + kept@ =~= kept@);
        lemma_base_token(name@);
    }
    out
}

/// What `heck` renders as the snake case of a string.
pub uninterp spec fn snake_case(s: Seq<char>) -> Seq<char>;

/// What `heck` renders as the upper camel case of a string.
pub uninterp spec fn pascal_case(s: Seq<char>) -> Seq<char>;

/// `heck::AsSnakeCase`, rendered. Trusted: the result is the snake case of
/// the argument; it is made of the argument's words (runs of alphanumeric
/// characters, lower-cased) joined by underscores. So of an argument that
/// holds only ASCII letters, digits and underscores it holds only
/// lower-case ASCII letters, digits and underscores, and it begins with a
/// lower-case letter where the argument's first character other than an
/// underscore is a letter.
#[verifier::external_body]
fn to_snake_case(s: &str) -> (r: String)
    ensures
        r@ == snake_case(s@),
        all_ident_chars(s@) ==> all_snake_chars(r@),
        all_ident_chars(s@) && leads_with_letter(s@) ==> r@.len() > 0 && is_lower(r@[0]),
{
    heck::AsSnakeCase(s).to_string()
}

/// `heck::AsPascalCase`, rendered. Trusted: the result is the upper camel
/// case of the argument; it is made of the argument's words (runs of
/// alphanumeric characters, each with its first character in upper case
/// and the rest in lower case) with nothing between them. So of an
/// argument that holds only ASCII letters, digits and underscores it
/// holds only ASCII letters and digits, and it begins with an upper-case
/// letter where the argument's first character other than an underscore
/// is a letter.
#[verifier::external_body]
fn to_pascal_case(s: &str) -> (r: String)
    ensures
        r@ == pascal_case(s@),
        all_ident_chars(s@) ==> all_alnum(r@),
        all_ident_chars(s@) && leads_with_letter(s@) ==> r@.len() > 0 && is_upper(r@[0]),
{
    heck::AsPascalCase(s).to_string()
}

/// The namespace identifier of a module, in lowercase-underscore form.
pub open spec fn namespace_ident(name: Seq<char>) -> Seq<char> {
    snake_case(base_token(name))
}

/// The class identifier of a module, in capitalised-word form.
pub open spec fn class_ident(name: Seq<char>) -> Seq<char> {
    pascal_case(base_token(name))
}

/// The lowercase-underscore identifier under which a module's namespace or
/// submodule is declared: for every name a valid identifier, without
/// upper-case letters.
pub fn namespace_name(name: &str) -> (r: String)
    ensures
        r@ == namespace_ident(name@),
        is_identifier(r@),
        all_snake_chars(r@),
{
    let base = format_module_name(name);
    to_snake_case(base.as_str())
}

/// The capitalised-word identifier under which a module's class is
/// declared: for every name a valid identifier, without underscores, that
/// begins with an upper-case letter.
pub fn class_name(name: &str) -> (r: String)
    ensures
        r@ == class_ident(name@),
        is_identifier(r@),
        is_upper(r@[0]),
        all_alnum(r@),
{
    let base = format_module_name(name);
    to_pascal_case(base.as_str())
}

} // verus!
