//! Display names and the numbered menu.
//!
//! An entry's display name is its file stem: the part of the path after
//! the last `/`, without the extension. A path whose file-name component
//! is empty has no display name; the menu cannot be rendered for it, and
//! the caller treats that as a fatal, programming-level fault. Paths that
//! come from a directory scan always carry an ordinary, non-empty file
//! name, so the rule on a leading-dot name (kept whole unless a later `.`
//! follows) is all the extension handling the menu needs.

use vstd::prelude::*;
use vstd::string::StrSliceExecFns;
use vstd::string::StringExecFns;

verus! {

/// The file-name component of a path: the characters after the last `/`,
/// or the whole path when it has none.
pub open spec fn file_name_of(p: Seq<char>) -> Seq<char>
    decreases p.len(),
{
    if p.len() == 0 {
        p
    } else if p.last() == '/' {
        Seq::empty()
    } else {
        file_name_of(p.drop_last()).push(p.last())
    }
}

/// Index of the last `.` of `name` that does not stand first, or -1 when
/// there is none. A dot in first position starts a hidden file's name and
/// does not begin an extension.
pub open spec fn last_dot_index(name: Seq<char>) -> int
    decreases name.len(),
{
    if name.len() <= 1 {
        -1
    } else if name.last() == '.' {
        name.len() - 1
    } else {
        last_dot_index(name.drop_last())
    }
}

/// The display name of a path: its file name without the extension, or
/// `None` when the file-name component is empty.
pub open spec fn stem_of(p: Seq<char>) -> Option<Seq<char>> {
    let name = file_name_of(p);
    if name.len() == 0 {
        None
    } else if last_dot_index(name) < 0 {
        Some(name)
    } else {
        Some(name.take(last_dot_index(name)))
    }
}

/// `file_name_of` is the suffix that starts right after the last slash.
proof fn lemma_file_name_is_suffix(p: Seq<char>, j: int)
    requires
        0 <= j <= p.len(),
        forall|k: int| j <= k < p.len() ==> p[k] != '/',
        j > 0 ==> p[j - 1] == '/',
    ensures
        file_name_of(p) == p.skip(j),
    decreases p.len(),
{
    if p.len() == 0 {
        assert(p.skip(0) =~= p);
    } else if j == p.len() {
        assert(p.last() == '/');
        assert(p.skip(j) =~= Seq::<char>::empty());
    } else {
        assert(p.last() != '/');
        lemma_file_name_is_suffix(p.drop_last(), j);
        assert(p.drop_last().skip(j).push(p.last()) =~= p.skip(j));
    }
}

proof fn lemma_no_dot(name: Seq<char>)
    requires
        forall|k: int| 1 <= k < name.len() ==> name[k] != '.',
    ensures
        last_dot_index(name) == -1,
    decreases name.len(),
{
    if name.len() > 1 {
        lemma_no_dot(name.drop_last());
    }
}

proof fn lemma_last_dot_at(name: Seq<char>, d: int)
    requires
        1 <= d < name.len(),
        name[d] == '.',
        forall|k: int| d < k < name.len() ==> name[k] != '.',
    ensures
        last_dot_index(name) == d,
    decreases name.len(),
{
    if d < name.len() - 1 {
        assert(name.last() != '.');
        lemma_last_dot_at(name.drop_last(), d);
    }
}

/// Computes the display name of a path, exactly as `stem_of` states it.
pub fn file_stem(path: &str) -> (r: Option<String>)
    ensures
        match r {
            Some(st) => stem_of(path@) is Some && st@ == stem_of(path@)->Some_0,
            None => stem_of(path@) is None,
        },
{
    let n = path.unicode_len();
    let mut j: usize = n;
    loop
        invariant
            0 <= j <= n,
            n == path@.len(),
            forall|k: int| j <= k < n ==> path@[k] != '/',
        ensures
            0 <= j <= n,
            forall|k: int| j <= k < n ==> path@[k] != '/',
            j > 0 ==> path@[j - 1] == '/',
        decreases j,
    {
        if j == 0 {
            break ;
        }
        if path.get_char(j - 1) == '/' {
            break ;
        }
        j = j - 1;
    }
    proof {
        lemma_file_name_is_suffix(path@, j as int);
    }
    let name = path.substring_char(j, n);
    let m = n - j;
    assert(name@ == file_name_of(path@));
    assert(m == name@.len());
    if m == 0 {
        return None;
    }
    let mut e: usize = m;
    loop
        invariant
            1 <= e <= m,
            m == name@.len(),
            forall|k: int| e <= k < m ==> name@[k] != '.',
        ensures
            1 <= e <= m,
            forall|k: int| e <= k < m ==> name@[k] != '.',
            e > 1 ==> name@[e - 1] == '.',
        decreases e,
    {
        if e == 1 {
            break ;
        }
        if name.get_char(e - 1) == '.' {
            break ;
        }
        e = e - 1;
    }
    if e > 1 {
        proof {
            lemma_last_dot_at(name@, e - 1);
        }
        let st = name.substring_char(0, e - 1);
        assert(st@ =~= name@.take(e - 1));
        Some(st.to_owned())
    } else {
        proof {
            lemma_no_dot(name@);
        }
        Some(name.to_owned())
    }
}

/// One decimal digit as a character.
pub open spec fn dec_digit(d: nat) -> char
    recommends
        d < 10,
{
    if d == 0 {
        '0'
    } else if d == 1 {
        '1'
    } else if d == 2 {
        '2'
    } else if d == 3 {
        '3'
    } else if d == 4 {
        '4'
    } else if d == 5 {
        '5'
    } else if d == 6 {
        '6'
    } else if d == 7 {
        '7'
    } else if d == 8 {
        '8'
    } else {
        '9'
    }
}

/// The decimal rendering of `n`, most significant digit first, without
/// leading zeros (`0` itself renders as `"0"`).
pub open spec fn dec_of(n: nat) -> Seq<char>
    decreases n,
{
    if n < 10 {
        seq![dec_digit(n)]
    } else {
        dec_of(n / 10).push(dec_digit(n % 10))
    }
}

fn digit_str(d: usize) -> (r: &'static str)
    requires
        d < 10,
    ensures
        r@ =~= seq![dec_digit(d as nat)],
{
    proof {
        reveal_strlit("0");
        reveal_strlit("1");
        reveal_strlit("2");
        reveal_strlit("3");
        reveal_strlit("4");
        reveal_strlit("5");
        reveal_strlit("6");
        reveal_strlit("7");
        reveal_strlit("8");
        reveal_strlit("9");
    }
    if d == 0 {
        "0"
    } else if d == 1 {
        "1"
    } else if d == 2 {
        "2"
    } else if d == 3 {
        "3"
    } else if d == 4 {
        "4"
    } else if d == 5 {
        "5"
    } else if d == 6 {
        "6"
    } else if d == 7 {
        "7"
    } else if d == 8 {
        "8"
    } else {
        "9"
    }
}

/// Renders `n` in decimal, exactly as `dec_of` states it.
pub fn fmt_usize(n: usize) -> (r: String)
    ensures
        r@ == dec_of(n as nat),
    decreases n,
{
    if n < 10 {
        let r = String::from_str(digit_str(n));
        assert(r@ =~= dec_of(n as nat));
        r
    } else {
        let mut rest = fmt_usize(n / 10);
        rest.append(digit_str(n % 10));
        assert(rest@ =~= dec_of(n as nat));
        rest
    }
}

/// One menu line: `"<k>: <stem>\n"`.
pub open spec fn menu_line(k: nat, stem: Seq<char>) -> Seq<char> {
    dec_of(k) + seq![':', ' '] + stem + seq!['\n']
}

/// The menu text for the given display names, numbering them from `next`
/// upward, one line each, in order.
pub open spec fn menu_lines(stems: Seq<Seq<char>>, next: nat) -> Seq<char>
    decreases stems.len(),
{
    if stems.len() == 0 {
        Seq::empty()
    } else {
        menu_line(next, stems[0]) + menu_lines(stems.drop_first(), next + 1)
    }
}

/// Every path in the sequence has a display name.
pub open spec fn all_stems(paths: Seq<Seq<char>>) -> bool {
    forall|i: int| 0 <= i < paths.len() ==> (#[trigger] stem_of(paths[i])) is Some
}

/// The display names of the paths, in order.
pub open spec fn stems_of(paths: Seq<Seq<char>>) -> Seq<Seq<char>> {
    paths.map_values(|p: Seq<char>| stem_of(p)->Some_0)
}

/// The whole menu for a path list: lines numbered from 1.
pub open spec fn menu_of(paths: Seq<Seq<char>>) -> Seq<char> {
    menu_lines(stems_of(paths), 1)
}

/// Appending one entry appends one line, numbered after the existing ones.
proof fn lemma_menu_lines_snoc(stems: Seq<Seq<char>>, next: nat, x: Seq<char>)
    ensures
        menu_lines(stems.push(x), next) == menu_lines(stems, next) + menu_line(
            next + stems.len(),
            x,
        ),
    decreases stems.len(),
{
    if stems.len() == 0 {
        assert(stems.push(x).drop_first() =~= Seq::<Seq<char>>::empty());
        assert(stems.push(x)[0] == x);
        assert(menu_lines(Seq::<Seq<char>>::empty(), next + 1) == Seq::<char>::empty());
        assert(menu_lines(stems.push(x), next) =~= menu_line(next, x));
        assert(menu_lines(stems, next) + menu_line(next + stems.len(), x) =~= menu_line(next, x));
    } else {
        assert(stems.push(x).drop_first() =~= stems.drop_first().push(x));
        lemma_menu_lines_snoc(stems.drop_first(), next + 1, x);
        assert(menu_lines(stems.push(x), next) =~= menu_lines(stems, next) + menu_line(
            next + stems.len(),
            x,
        ));
    }
}

/// Renders the numbered menu for the given entry paths, line `i` reading
/// `"<i>: <stem>\n"` with 1-based numbering in the given order. Returns
/// `None` exactly when some entry has no display name.
pub fn prepare_menu(composers: &Vec<String>) -> (menu: Option<String>)
    ensures
        match menu {
            Some(m) => all_stems(composers.deep_view()) && m@ == menu_of(composers.deep_view()),
            None => !all_stems(composers.deep_view()),
        },
{
    let ghost paths = composers.deep_view();
    let mut out = String::new();
    let mut i: usize = 0;
    proof {
        reveal_strlit(": ");
        reveal_strlit("\n");
        assert(stems_of(paths.take(0)) =~= Seq::<Seq<char>>::empty());
    }
    while i < composers.len()
        invariant
            i <= composers.len(),
            paths == composers.deep_view(),
            paths.len() == composers.len(),
            all_stems(paths.take(i as int)),
            out@ == menu_lines(stems_of(paths.take(i as int)), 1),
        decreases composers.len() - i,
    {
        let stem = match file_stem(composers[i].as_str()) {
            Some(st) => st,
            None => {
                proof {
                    assert(stem_of(paths[i as int]) is None);
                    assert(!all_stems(paths));
                }
                return None;
            },
        };
        let number = fmt_usize(i + 1);
        out.append(number.as_str());
        out.append(": ");
        out.append(stem.as_str());
        out.append("\n");
        proof {
            reveal_strlit(": ");
            reveal_strlit("\n");
            assert(": "@ =~= seq![':', ' ']);
            assert("\n"@ =~= seq!['\n']);
            let prev = stems_of(paths.take(i as int));
            assert(prev.len() == i);
            lemma_menu_lines_snoc(prev, 1, stem@);
            assert(stems_of(paths.take(i as int + 1)) =~= prev.push(stem@));
            assert(out@ =~= menu_lines(prev, 1) + menu_line((i + 1) as nat, stem@));
            assert(out@ =~= menu_lines(stems_of(paths.take(i as int + 1)), 1));
            assert forall|k: int| 0 <= k < i as int + 1 implies (#[trigger] stem_of(
                paths.take(i as int + 1)[k],
            )) is Some by {
                if k < i as int {
                    assert(stem_of(paths.take(i as int)[k]) is Some);
                }
            }
        }
        i = i + 1;
    }
    proof {
        assert(paths.take(paths.len() as int) =~= paths);
    }
    Some(out)
}

} // verus!
