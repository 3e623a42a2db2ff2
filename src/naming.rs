use crate::text::{decimal_text, lemma_decimal_text_digits, u64_text};
use vstd::seq_lib::seq_to_set_is_finite;
use vstd::set_lib::lemma_len_subset;
use vstd::prelude::*;

verus! {

/// The place of the last `c` in `s`, if any.
pub open spec fn last_index_of(s: Seq<char>, c: char) -> Option<int>
    decreases s.len(),
{
    if s.len() == 0 {
        None
    } else if s.last() == c {
        Some(s.len() - 1)
    } else {
        last_index_of(s.drop_last(), c)
    }
}

/// Where the file name of `path` starts: after its last `/`.
pub open spec fn file_name_start(path: Seq<char>) -> int {
    match last_index_of(path, '/') {
        Some(i) => i + 1,
        None => 0,
    }
}

/// The place, within `path`, of the dot that starts the extension of its file
/// name: the file name's last dot, unless that dot begins the file name.
pub open spec fn extension_dot(path: Seq<char>) -> Option<int> {
    let start = file_name_start(path);
    match last_index_of(path.subrange(start, path.len() as int), '.') {
        Some(j) => if j > 0 { Some(start + j) } else { None },
        None => None,
    }
}

/// `path` with `name` put between its file stem and its extension
/// (`dir/list.csv` and `sent` give `dir/list.sent.csv`); none when the file
/// name has no extension.
pub open spec fn with_name_added(path: Seq<char>, name: Seq<char>) -> Option<Seq<char>> {
    match extension_dot(path) {
        Some(d) => Some(path.subrange(0, d + 1) + name + seq!['.'] + path.subrange(d + 1, path.len() as int)),
        None => None,
    }
}

proof fn lemma_last_index_bound(s: Seq<char>, c: char)
    ensures
        match last_index_of(s, c) {
            Some(j) => 0 <= j < s.len() && s[j] == c,
            None => true,
        },
    decreases s.len(),
{
    if s.len() > 0 && s.last() != c {
        lemma_last_index_bound(s.drop_last(), c);
    }
}

fn find_last(s: &str, c: char, from: usize) -> (r: Option<usize>)
    requires
        from <= s@.len(),
    ensures
        match last_index_of(s@.subrange(from as int, s@.len() as int), c) {
            Some(j) => 0 <= j && from + j < s@.len() && r == Some((from + j) as usize),
            None => r is None,
        },
        r is Some ==> from <= r->0 < s@.len(),
{
    proof {
        lemma_last_index_bound(s@.subrange(from as int, s@.len() as int), c);
    }
    let n = s.unicode_len();
    let mut i: usize = n;
    while i > from
        invariant
            from <= i <= n,
            n == s@.len(),
            last_index_of(s@.subrange(from as int, n as int), c) == last_index_of(
                s@.subrange(from as int, i as int),
                c,
            ),
        decreases i,
    {
        let ghost sub = s@.subrange(from as int, i as int);
        assert(sub.drop_last() =~= s@.subrange(from as int, i - 1));
        if s.get_char(i - 1) == c {
            return Some(i - 1);
        }
        i = i - 1;
    }
    assert(s@.subrange(from as int, i as int).len() == 0);
    None
}

/// Puts `name` between the file stem and the extension of `path`
/// (`dir/list.csv` and `sent` give `dir/list.sent.csv`); `None` when the file
/// name has no extension.
pub fn add_to_filename(path: &str, name: &str) -> (r: Option<String>)
    ensures
        match with_name_added(path@, name@) {
            Some(p) => r is Some && r->0@ == p,
            None => r is None,
        },
{
    let n = path.unicode_len();
    assert(path@.subrange(0, path@.len() as int) =~= path@);
    let slash = find_last(path, '/', 0);
    assert(slash is Some ==> last_index_of(path@, '/') == Some(slash->0 as int));
    assert(slash is None ==> last_index_of(path@, '/') is None);
    let start: usize = match slash {
        Some(i) => i + 1,
        None => 0,
    };
    assert(file_name_start(path@) == start as int);
    let dot = find_last(path, '.', start);
    match dot {
        Some(d) => {
            if d == start {
                assert(extension_dot(path@) is None);
                return None;
            }
            assert(extension_dot(path@) == Some(d as int));
            let mut out = String::from_str(path.substring_char(0, d + 1));
            out.append(name);
            out.append(".");
            out.append(path.substring_char(d + 1, n));
            proof {
                reveal_strlit(".");
            }
            assert(out@ =~= path@.subrange(0, d + 1) + name@ + seq!['.'] + path@.subrange(d + 1, n as int));
            Some(out)
        },
        None => None,
    }
}

/// The name that backup number `n` of `path` gets.
pub open spec fn backup_name(path: Seq<char>, n: nat) -> Option<Seq<char>> {
    with_name_added(path, decimal_text(n))
}

proof fn lemma_backup_names_distinct(path: Seq<char>, a: nat, b: nat)
    requires
        extension_dot(path) is Some,
        a != b,
    ensures
        backup_name(path, a) is Some,
        backup_name(path, a) != backup_name(path, b),
{
    lemma_decimal_text_digits(a);
    lemma_decimal_text_digits(b);
    let d = extension_dot(path)->0;
    lemma_last_index_bound(path.subrange(file_name_start(path), path.len() as int), '.');
    let head = path.subrange(0, d + 1);
    let x = head + decimal_text(a) + seq!['.'] + path.subrange(d + 1, path.len() as int);
    let y = head + decimal_text(b) + seq!['.'] + path.subrange(d + 1, path.len() as int);
    let tail = seq!['.'] + path.subrange(d + 1, path.len() as int);
    assert(x =~= head + decimal_text(a) + tail);
    assert(y =~= head + decimal_text(b) + tail);
    if x == y {
        assert(x.len() == head.len() + decimal_text(a).len() + tail.len());
        assert(y.len() == head.len() + decimal_text(b).len() + tail.len());
        assert(decimal_text(a).len() == decimal_text(b).len());
        assert(x.subrange(head.len() as int, (head.len() + decimal_text(a).len()) as int) =~= decimal_text(a));
        assert(y.subrange(head.len() as int, (head.len() + decimal_text(b).len()) as int) =~= decimal_text(b));
    }
}

/// Backup rotation never runs out of numbers: among the names of backups
/// `0..=taken.len()` of a path with an extension, one is not taken.
pub proof fn lemma_backup_number_free(path: Seq<char>, taken: Seq<String>)
    requires
        extension_dot(path) is Some,
    ensures
        exists|k: nat| k <= taken.len() && !is_taken(taken, (#[trigger] backup_name(path, k))->0),
{
    if forall|k: nat| k <= taken.len() ==> is_taken(taken, (#[trigger] backup_name(path, k))->0) {
        let names = Seq::new((taken.len() + 1) as nat, |k: int| backup_name(path, k as nat)->0);
        let views = taken.map_values(|t: String| t@);
        assert forall|i: int, j: int| 0 <= i < names.len() && 0 <= j < names.len() && i != j implies names[i]
            != names[j] by {
            lemma_backup_names_distinct(path, i as nat, j as nat);
            lemma_backup_names_distinct(path, j as nat, i as nat);
        }
        assert(names.no_duplicates());
        names.unique_seq_to_set();
        views.lemma_cardinality_of_set();
        seq_to_set_is_finite(views);
        assert forall|n: Seq<char>| names.to_set().contains(n) implies views.to_set().contains(n) by {
            let i = choose|i: int| 0 <= i < names.len() && names[i] == n;
            assert(is_taken(taken, backup_name(path, i as nat)->0));
            let m = choose|m: int| 0 <= m < taken.len() && taken[m]@ == backup_name(path, i as nat)->0;
            assert(views[m] == n);
        }
        lemma_len_subset(names.to_set(), views.to_set());
        assert(false);
    }
}

fn contains_text(v: &Vec<String>, s: &String) -> (r: bool)
    ensures
        r == exists|k: int| 0 <= k < v@.len() && v@[k]@ == s@,
{
    let mut j: usize = 0;
    while j < v.len()
        invariant
            0 <= j <= v@.len(),
            forall|k: int| 0 <= k < j ==> v@[k]@ != s@,
        decreases v@.len() - j,
    {
        if v[j] == *s {
            return true;
        }
        j = j + 1;
    }
    false
}

/// Whether `name` is one of the texts of `taken`.
pub open spec fn is_taken(taken: Seq<String>, name: Seq<char>) -> bool {
    exists|k: int| 0 <= k < taken.len() && taken[k]@ == name
}

/// The path to move an existing file at `path` to before it is overwritten:
/// backup number `n` of `path` for the lowest `n` whose name is not among
/// `taken` (the paths that exist). `None` when `path` has no extension, or when
/// every number up to the count of `taken` is taken.
pub fn backup_path(path: &str, taken: &Vec<String>) -> (r: Option<String>)
    ensures
        match r {
            Some(p) => exists|n: nat| {
                &&& #[trigger] backup_name(path@, n) == Some(p@)
                &&& !is_taken(taken@, p@)
                &&& forall|k: nat| k < n ==> is_taken(taken@, (#[trigger] backup_name(path@, k))->0)
            },
            None => extension_dot(path@) is None,
        },
{
    let mut n: usize = 0;
    while n < taken.len()
        invariant
            0 <= n <= taken@.len(),
            forall|k: nat| k < n ==> (#[trigger] backup_name(path@, k)) is Some && is_taken(taken@, backup_name(path@, k)->0),
        decreases taken@.len() - n,
    {
        let digits = u64_text(n as u64);
        match add_to_filename(path, digits.as_str()) {
            Some(candidate) => {
                if !contains_text(taken, &candidate) {
                    assert(backup_name(path@, n as nat) == Some(candidate@));
                    return Some(candidate);
                }
            },
            None => {
                assert(extension_dot(path@) is None);
                return None;
            },
        }
        n = n + 1;
    }
    let digits = u64_text(n as u64);
    match add_to_filename(path, digits.as_str()) {
        Some(candidate) => {
            if !contains_text(taken, &candidate) {
                assert(backup_name(path@, n as nat) == Some(candidate@));
                Some(candidate)
            } else {
                proof {
                    lemma_backup_number_free(path@, taken@);
                    let k = choose|k: nat| k <= taken@.len() && !is_taken(taken@, (#[trigger] backup_name(path@, k))->0);
                    if k < n {
                        assert(is_taken(taken@, backup_name(path@, k)->0));
                    } else {
                        assert(backup_name(path@, n as nat) == Some(candidate@));
                    }
                }
                None
            }
        },
        None => {
            assert(extension_dot(path@) is None);
            None
        },
    }
}

} // verus!
