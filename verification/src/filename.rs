//! Names under which uploads are stored: the client's name made safe, its
//! extension replaced by the accepted one, and a counter appended until the
//! name is free.

use crate::decimal::{
    decimal, decimal_string, lemma_decimal_digits, lemma_decimal_injective, lemma_decimal_len,
};
use crate::extension::Extension;
use vstd::prelude::*;
use vstd::relations::injective_on;
use vstd::set_lib::{lemma_int_range, lemma_len_subset, lemma_map_size, set_int_range};

verus! {

/// A character that the sanitizer deletes: a path separator, another
/// character reserved by common file systems, or a C0 or C1 control character.
pub open spec fn is_reserved(c: char) -> bool {
    ||| c == '/'
    ||| c == '\\'
    ||| c == '?'
    ||| c == '<'
    ||| c == '>'
    ||| c == ':'
    ||| c == '*'
    ||| c == '|'
    ||| c == '"'
    ||| (c as u32) <= 0x1f
    ||| 0x80 <= (c as u32) <= 0x9f
}

/// A character that no stored name may hold: a reserved one, or the control
/// character U+007F.
pub open spec fn is_forbidden(c: char) -> bool {
    is_reserved(c) || c == '\x7f'
}

/// No character of `s` is reserved.
pub open spec fn is_free_of_reserved(s: Seq<char>) -> bool {
    forall|i: int| 0 <= i < s.len() ==> !is_reserved(#[trigger] s[i])
}

/// No character of `s` is forbidden.
pub open spec fn is_clean(s: Seq<char>) -> bool {
    forall|i: int| 0 <= i < s.len() ==> !is_forbidden(#[trigger] s[i])
}

/// A name that can only denote an entry directly inside the directory it is
/// joined to: it is not empty, it is neither `.` nor `..`, and it holds no
/// forbidden character, so neither a path separator nor the colon of a drive.
pub open spec fn is_single_component(name: Seq<char>) -> bool {
    &&& name.len() > 0
    &&& name != seq!['.']
    &&& name != seq!['.', '.']
    &&& is_clean(name)
}

/// What `sanitize_filename::sanitize_with_options` makes of `name` with its
/// default options, but for `windows`, which is as given.
pub uninterp spec fn sanitized(name: Seq<char>, windows: bool) -> Seq<char>;

/// Calls `sanitize_filename::sanitize_with_options` with the crate's default
/// options (truncate to 255 bytes, replace by nothing), but for the Windows
/// rules, which apply as `windows` says.
///
/// Trusted: the result is a function of the two arguments, and it holds no
/// reserved character. The outside function first deletes every match of its
/// two character classes, which together are the reserved characters, and
/// after that only deletes more.
#[verifier::external_body]
fn sanitize(name: &str, windows: bool) -> (clean: String)
    ensures
        clean@ == sanitized(name@, windows),
        is_free_of_reserved(clean@),
{
    sanitize_filename::sanitize_with_options(
        name,
        sanitize_filename::Options { windows, ..Default::default() },
    )
}

/// The text without its occurrences of U+007F.
pub open spec fn without_delete(s: Seq<char>) -> Seq<char>
    decreases s.len(),
{
    if s.len() == 0 {
        Seq::empty()
    } else if s.last() == '\x7f' {
        without_delete(s.drop_last())
    } else {
        without_delete(s.drop_last()).push(s.last())
    }
}

/// What is left of a text without U+007F holds no U+007F, and no reserved
/// character where the text held none.
pub proof fn lemma_without_delete_is_clean(s: Seq<char>)
    requires
        is_free_of_reserved(s),
    ensures
        is_clean(without_delete(s)),
    decreases s.len(),
{
    if s.len() > 0 {
        let head = s.drop_last();
        lemma_without_delete_is_clean(head);
        assert(!is_reserved(s[s.len() - 1]));
        assert forall|i: int| 0 <= i < without_delete(s).len() implies !is_forbidden(
            #[trigger] without_delete(s)[i],
        ) by {
            if i < without_delete(head).len() {
                assert(without_delete(s)[i] == without_delete(head)[i]);
            }
        }
    }
}

/// Takes U+007F out of a text.
fn strip_delete(text: &str) -> (stripped: String)
    ensures
        stripped@ == without_delete(text@),
{
    let n: usize = text.unicode_len();
    let mut stripped: String = String::new();
    let mut i: usize = 0;
    while i < n
        invariant
            i <= n,
            n == text@.len(),
            stripped@ == without_delete(text@.subrange(0, i as int)),
        decreases n - i,
    {
        proof {
            assert(text@.subrange(0, i + 1).drop_last() =~= text@.subrange(0, i as int));
            assert(text@.subrange(i as int, i + 1) =~= seq![text@[i as int]]);
        }
        if text.get_char(i) != '\x7f' {
            stripped.append(text.substring_char(i, i + 1));
        }
        i += 1;
    }
    assert(text@.subrange(0, n as int) =~= text@);
    stripped
}

/// The name that a client gave, made safe to stand in a directory: what the
/// sanitizer leaves of it, without U+007F.
pub open spec fn safe_name(original: Seq<char>, windows: bool) -> Seq<char> {
    without_delete(sanitized(original, windows))
}

/// Makes a name that a client gave safe to stand in a directory. Path
/// separators, the other reserved characters and all control characters are
/// taken out; `windows` says whether the rules of Windows apply as well.
pub fn make_safe(original: &str, windows: bool) -> (safe: String)
    ensures
        safe@ == safe_name(original@, windows),
        is_clean(safe@),
{
    let kept: String = sanitize(original, windows);
    proof {
        lemma_without_delete_is_clean(kept@);
    }
    strip_delete(kept.as_str())
}

/// The name without its extension: what stands before the last dot, or the
/// whole name where it has no dot or only a leading one. The empty name, `.`
/// and `..` are no file names and have no stem.
pub open spec fn file_stem(name: Seq<char>) -> Option<Seq<char>> {
    if name.len() == 0 || name == seq!['.'] || name == seq!['.', '.'] {
        None
    } else {
        match name.index_of_last('.') {
            Some(i) => if i > 0 {
                Some(name.subrange(0, i))
            } else {
                Some(name)
            },
            None => Some(name),
        }
    }
}

/// A stem is never empty, and it is a prefix of the name.
pub proof fn lemma_file_stem_is_prefix(name: Seq<char>)
    ensures
        file_stem(name) matches Some(stem) ==> 0 < stem.len() <= name.len() && stem
            == name.subrange(0, stem.len() as int),
{
    name.index_of_last_ensures('.');
    if file_stem(name) is Some {
        let stem = file_stem(name)->0;
        assert(stem =~= name.subrange(0, stem.len() as int));
    }
}

/// Strips the extension from a file name.
pub fn stem_of(name: &str) -> (stem: Option<String>)
    ensures
        stem.deep_view() == file_stem(name@),
{
    let n: usize = name.unicode_len();
    if n == 0 {
        return None;
    }
    if n == 1 && name.get_char(0) == '.' {
        assert(name@ =~= seq!['.']);
        return None;
    }
    if n == 2 && name.get_char(0) == '.' && name.get_char(1) == '.' {
        assert(name@ =~= seq!['.', '.']);
        return None;
    }
    assert(name@ != seq!['.']) by {
        if name@ == seq!['.'] {
            assert(name@[0] == seq!['.'][0]);
        }
    }
    assert(name@ != seq!['.', '.']) by {
        if name@ == seq!['.', '.'] {
            assert(name@[0] == seq!['.', '.'][0]);
            assert(name@[1] == seq!['.', '.'][1]);
        }
    }
    let mut end: usize = n;
    while end > 0 && name.get_char(end - 1) != '.'
        invariant
            end <= n,
            n == name@.len(),
            forall|j: int| end <= j < n ==> name@[j] != '.',
        decreases end,
    {
        end -= 1;
    }
    proof {
        name@.index_of_last_ensures('.');
    }
    if end > 1 {
        let stem: String = name.substring_char(0, end - 1).to_owned();
        Some(stem)
    } else {
        let stem: String = name.to_owned();
        Some(stem)
    }
}

/// The stem that a name is stored under: its own, or the empty one where the
/// name has none.
pub open spec fn stem_or_empty(name: Seq<char>) -> Seq<char> {
    match file_stem(name) {
        Some(stem) => stem,
        None => Seq::empty(),
    }
}

/// Strips the extension from a name; of what is no file name nothing is left.
pub fn stem_or_empty_of(name: &str) -> (stem: String)
    ensures
        stem@ == stem_or_empty(name@),
        is_clean(name@) ==> is_clean(stem@),
{
    proof {
        lemma_file_stem_is_prefix(name@);
    }
    match stem_of(name) {
        Some(stem) => stem,
        None => String::new(),
    }
}

/// What is appended to the stem at the given attempt: nothing at the first,
/// then a hyphen and the attempt's number.
pub open spec fn counter(attempt: nat) -> Seq<char> {
    if attempt == 0 {
        Seq::empty()
    } else {
        seq!['-'] + decimal(attempt)
    }
}

/// The name tried at the given attempt: `stem.ext`, then `stem-1.ext`, `stem-2.ext`, ...
pub open spec fn candidate(stem: Seq<char>, ext: Extension, attempt: nat) -> Seq<char> {
    stem + counter(attempt) + seq!['.'] + ext.text()
}

/// Builds the name tried at the given attempt.
pub fn candidate_name(stem: &str, ext: Extension, attempt: u64) -> (name: String)
    ensures
        name@ == candidate(stem@, ext, attempt as nat),
{
    let mut name: String = stem.to_owned();
    if attempt > 0 {
        proof {
            reveal_strlit("-");
        }
        name.append("-");
        let digits: String = decimal_string(attempt);
        name.append(digits.as_str());
        assert(name@ =~= stem@ + counter(attempt as nat));
    }
    proof {
        reveal_strlit(".");
    }
    name.append(".");
    name.append(ext.as_str());
    assert(name@ =~= candidate(stem@, ext, attempt as nat));
    name
}

/// Two attempts with the same candidate are the same attempt.
pub proof fn lemma_candidate_injective(stem: Seq<char>, ext: Extension, a: nat, b: nat)
    requires
        candidate(stem, ext, a) == candidate(stem, ext, b),
    ensures
        a == b,
{
    let na = candidate(stem, ext, a);
    let nb = candidate(stem, ext, b);
    let ca = counter(a);
    let cb = counter(b);
    let from = stem.len() as int;
    assert(na.len() == stem.len() + ca.len() + 1 + ext.text().len());
    assert(nb.len() == stem.len() + cb.len() + 1 + ext.text().len());
    assert(ca =~= na.subrange(from, from + ca.len()));
    assert(cb =~= nb.subrange(from, from + cb.len()));
    lemma_decimal_len(a);
    lemma_decimal_len(b);
    if a != 0 && b != 0 {
        assert(decimal(a) =~= ca.subrange(1, ca.len() as int));
        assert(decimal(b) =~= cb.subrange(1, cb.len() as int));
        lemma_decimal_injective(a, b);
    }
}

/// A candidate built on a clean stem is a single path component.
pub proof fn lemma_candidate_is_single_component(stem: Seq<char>, ext: Extension, attempt: nat)
    requires
        is_clean(stem),
    ensures
        is_single_component(candidate(stem, ext, attempt)),
{
    let name = candidate(stem, ext, attempt);
    let c = counter(attempt);
    lemma_decimal_digits(attempt);
    assert(name.len() == stem.len() + c.len() + 1 + 3);
    assert forall|i: int| 0 <= i < name.len() implies !is_forbidden(#[trigger] name[i]) by {
        if i < stem.len() {
            assert(name[i] == stem[i]);
        } else if i < stem.len() + c.len() {
            let k = i - stem.len();
            assert(name[i] == c[k]);
            if k > 0 {
                assert(c[k] == decimal(attempt)[k - 1]);
            }
        } else if i == stem.len() + c.len() {
            assert(name[i] == '.');
        } else {
            assert(name[i] == ext.text()[i - stem.len() - c.len() - 1]);
        }
    }
    assert(name != seq!['.']) by {
        assert(seq!['.'].len() == 1);
    }
    assert(name != seq!['.', '.']) by {
        assert(seq!['.', '.'].len() == 2);
    }
}

/// Whether `attempt` is the first whose candidate is not among `taken`.
pub open spec fn is_first_free(
    stem: Seq<char>,
    ext: Extension,
    taken: Set<Seq<char>>,
    attempt: nat,
) -> bool {
    &&& !taken.contains(candidate(stem, ext, attempt))
    &&& forall|j: nat| j < attempt ==> taken.contains(#[trigger] candidate(stem, ext, j))
}

/// The first attempt whose candidate is not among `taken`.
pub open spec fn first_free(stem: Seq<char>, ext: Extension, taken: Set<Seq<char>>) -> nat {
    choose|attempt: nat| is_first_free(stem, ext, taken, attempt)
}

/// The name that a stem is stored under in a directory that holds `taken`.
pub open spec fn resolved(stem: Seq<char>, ext: Extension, taken: Set<Seq<char>>) -> Seq<char> {
    candidate(stem, ext, first_free(stem, ext, taken))
}

/// The name that an upload called `original` is stored under in a directory
/// that holds `taken`.
pub open spec fn stored_name(
    original: Seq<char>,
    ext: Extension,
    windows: bool,
    taken: Set<Seq<char>>,
) -> Seq<char> {
    resolved(stem_or_empty(safe_name(original, windows)), ext, taken)
}

/// Where the first `n` candidates are all taken, at least `n` names are taken.
pub proof fn lemma_taken_prefix_bounded(
    stem: Seq<char>,
    ext: Extension,
    taken: Set<Seq<char>>,
    n: nat,
)
    requires
        taken.finite(),
        forall|j: nat| j < n ==> taken.contains(#[trigger] candidate(stem, ext, j)),
    ensures
        n <= taken.len(),
{
    let attempts = set_int_range(0, n as int);
    let name_of = |j: int| candidate(stem, ext, j as nat);
    let names = attempts.map(name_of);
    lemma_int_range(0, n as int);
    assert(injective_on(name_of, attempts)) by {
        assert forall|a: int, b: int|
            attempts.contains(a) && attempts.contains(b) && #[trigger] name_of(a)
                == #[trigger] name_of(b) implies a == b by {
            lemma_candidate_injective(stem, ext, a as nat, b as nat);
        }
    }
    lemma_map_size(attempts, names, name_of);
    assert(names.subset_of(taken)) by {
        assert forall|name: Seq<char>| names.contains(name) implies taken.contains(name) by {
            let j = choose|j: int| attempts.contains(j) && name == name_of(j);
            assert(taken.contains(candidate(stem, ext, j as nat)));
        }
    }
    lemma_len_subset(names, taken);
}

/// Below a free attempt there is a first free one.
proof fn lemma_first_free_below(stem: Seq<char>, ext: Extension, taken: Set<Seq<char>>, free: nat)
    requires
        !taken.contains(candidate(stem, ext, free)),
    ensures
        exists|attempt: nat| attempt <= free && is_first_free(stem, ext, taken, attempt),
    decreases free,
{
    if is_first_free(stem, ext, taken, free) {
    } else {
        let j = choose|j: nat| j < free && !taken.contains(#[trigger] candidate(stem, ext, j));
        lemma_first_free_below(stem, ext, taken, j);
    }
}

/// At most one attempt is the first free one.
pub proof fn lemma_first_free_unique(
    stem: Seq<char>,
    ext: Extension,
    taken: Set<Seq<char>>,
    a: nat,
    b: nat,
)
    requires
        is_first_free(stem, ext, taken, a),
        is_first_free(stem, ext, taken, b),
    ensures
        a == b,
{
    if a < b {
        assert(taken.contains(candidate(stem, ext, a)));
    }
    if b < a {
        assert(taken.contains(candidate(stem, ext, b)));
    }
}

/// In a directory that holds finitely many names some attempt is free, and
/// the first free one comes no later than there are names.
pub proof fn lemma_first_free_exists(stem: Seq<char>, ext: Extension, taken: Set<Seq<char>>)
    requires
        taken.finite(),
    ensures
        is_first_free(stem, ext, taken, first_free(stem, ext, taken)),
        first_free(stem, ext, taken) <= taken.len(),
{
    let n = taken.len();
    if forall|j: nat| j < n + 1 ==> taken.contains(#[trigger] candidate(stem, ext, j)) {
        lemma_taken_prefix_bounded(stem, ext, taken, n + 1);
    }
    let free = choose|j: nat| j < n + 1 && !taken.contains(#[trigger] candidate(stem, ext, j));
    lemma_first_free_below(stem, ext, taken, free);
    let first = choose|attempt: nat| attempt <= free && is_first_free(stem, ext, taken, attempt);
    lemma_first_free_unique(stem, ext, taken, first, first_free(stem, ext, taken));
}

/// The names that a directory listing holds.
pub open spec fn listed(existing: &Vec<String>) -> Set<Seq<char>> {
    existing.deep_view().to_set()
}

/// A listing holds finitely many names, no more than it has entries.
pub proof fn lemma_listed_finite(existing: &Vec<String>)
    ensures
        listed(existing).finite(),
        listed(existing).len() <= existing.len(),
{
    broadcast use vstd::seq_lib::seq_to_set_is_finite;

    existing.deep_view().lemma_cardinality_of_set();
}

/// Whether the listing holds the name.
pub fn is_listed(existing: &Vec<String>, name: &String) -> (found: bool)
    ensures
        found == listed(existing).contains(name@),
{
    let mut i: usize = 0;
    while i < existing.len()
        invariant
            i <= existing.len(),
            forall|j: int| 0 <= j < i ==> existing.deep_view()[j] != name@,
        decreases existing.len() - i,
    {
        if existing[i] == *name {
            assert(existing.deep_view()[i as int] == name@);
            return true;
        }
        i += 1;
    }
    false
}

/// The name that `stem` is stored under, given the names that the directory
/// holds: the first of `stem.ext`, `stem-1.ext`, `stem-2.ext`, ... that is not
/// among them.
pub fn resolve(stem: &str, ext: Extension, existing: &Vec<String>) -> (name: String)
    ensures
        name@ == resolved(stem@, ext, listed(existing)),
        is_first_free(stem@, ext, listed(existing), first_free(stem@, ext, listed(existing))),
        !listed(existing).contains(name@),
        is_clean(stem@) ==> is_single_component(name@),
{
    let ghost taken = listed(existing);
    proof {
        lemma_listed_finite(existing);
        lemma_first_free_exists(stem@, ext, taken);
    }
    let mut attempt: u64 = 0;
    let mut name: String = candidate_name(stem, ext, attempt);
    while is_listed(existing, &name)
        invariant
            taken == listed(existing),
            taken.finite(),
            taken.len() <= existing.len(),
            attempt <= existing.len(),
            name@ == candidate(stem@, ext, attempt as nat),
            forall|j: nat| j < attempt ==> taken.contains(#[trigger] candidate(stem@, ext, j)),
        decreases existing.len() - attempt,
    {
        proof {
            lemma_taken_prefix_bounded(stem@, ext, taken, (attempt + 1) as nat);
        }
        attempt += 1;
        name = candidate_name(stem, ext, attempt);
    }
    proof {
        lemma_first_free_unique(
            stem@,
            ext,
            taken,
            attempt as nat,
            first_free(stem@, ext, taken),
        );
        if is_clean(stem@) {
            lemma_candidate_is_single_component(stem@, ext, attempt as nat);
        }
    }
    name
}

/// The name that an upload called `original_filename` is stored under: the
/// name is made safe, its extension replaced by `extension`, and a counter
/// appended until it is none of `existing`.
///
/// Every name is given one. Where nothing is left of a name once it is made
/// safe, the stem is empty and the stored name begins with the dot or the
/// counter.
pub fn get_filename(
    original_filename: &str,
    extension: Extension,
    windows: bool,
    existing: &Vec<String>,
) -> (name: String)
    ensures
        name@ == stored_name(original_filename@, extension, windows, listed(existing)),
        !listed(existing).contains(name@),
        is_single_component(name@),
{
    let safe: String = make_safe(original_filename, windows);
    let stem: String = stem_or_empty_of(safe.as_str());
    resolve(stem.as_str(), extension, existing)
}

/// Two uploads of one name and extension, stored one after the other, end up
/// under different names, neither of which was in the directory before.
pub proof fn law_same_name_twice_is_stored_apart(
    original: Seq<char>,
    ext: Extension,
    windows: bool,
    taken: Set<Seq<char>>,
)
    requires
        taken.finite(),
    ensures
        ({
            let first = stored_name(original, ext, windows, taken);
            let second = stored_name(original, ext, windows, taken.insert(first));
            &&& first != second
            &&& !taken.contains(first)
            &&& !taken.contains(second)
        }),
{
    let stem = stem_or_empty(safe_name(original, windows));
    let first = resolved(stem, ext, taken);
    lemma_first_free_exists(stem, ext, taken);
    lemma_first_free_exists(stem, ext, taken.insert(first));
}

/// In a directory that holds none of its candidates a stem is stored under
/// `stem.ext`.
pub proof fn law_free_name_is_kept(stem: Seq<char>, ext: Extension, taken: Set<Seq<char>>)
    requires
        !taken.contains(candidate(stem, ext, 0)),
    ensures
        resolved(stem, ext, taken) == stem + seq!['.'] + ext.text(),
{
    assert(is_first_free(stem, ext, taken, 0));
    lemma_first_free_unique(stem, ext, taken, 0, first_free(stem, ext, taken));
    assert(candidate(stem, ext, 0) =~= stem + seq!['.'] + ext.text());
}

} // verus!
