//! Rendering of the ordered records into the launcher's text payloads:
//! the name-list, the id-list, the unmatched-entry report, and the
//! aggregate size used for the summary.
use vstd::prelude::*;
use crate::merge::{Mod, ModView, unknown_views};

verus! {

/// The character of a single decimal digit.
pub open spec fn dec_digit_char(d: int) -> char {
    if d == 0 {
        '0'
    } else if d == 1 {
        '1'
    } else if d == 2 {
        '2'
    } else if d == 3 {
        '3'
    } else if d == 4 {
        '4'
    } else if d == 5 {
        '5'
    } else if d == 6 {
        '6'
    } else if d == 7 {
        '7'
    } else if d == 8 {
        '8'
    } else {
        '9'
    }
}

/// The decimal representation of `n`, most significant digit first, with
/// no sign and no leading zero (a single `'0'` for zero).
pub open spec fn dec_chars(n: nat) -> Seq<char>
    decreases n,
{
    if n < 10 {
        seq![dec_digit_char(n as int)]
    } else {
        dec_chars(n / 10).push(dec_digit_char((n % 10) as int))
    }
}

fn dec_digit_str(d: u64) -> (r: &'static str)
    requires
        d < 10,
    ensures
        r@ == seq![dec_digit_char(d as int)],
{
    if d == 0 {
        proof {
            reveal_strlit("0");
            assert("0"@ =~= seq![dec_digit_char(0)]);
        }
        "0"
    } else if d == 1 {
        proof {
            reveal_strlit("1");
            assert("1"@ =~= seq![dec_digit_char(1)]);
        }
        "1"
    } else if d == 2 {
        proof {
            reveal_strlit("2");
            assert("2"@ =~= seq![dec_digit_char(2)]);
        }
        "2"
    } else if d == 3 {
        proof {
            reveal_strlit("3");
            assert("3"@ =~= seq![dec_digit_char(3)]);
        }
        "3"
    } else if d == 4 {
        proof {
            reveal_strlit("4");
            assert("4"@ =~= seq![dec_digit_char(4)]);
        }
        "4"
    } else if d == 5 {
        proof {
            reveal_strlit("5");
            assert("5"@ =~= seq![dec_digit_char(5)]);
        }
        "5"
    } else if d == 6 {
        proof {
            reveal_strlit("6");
            assert("6"@ =~= seq![dec_digit_char(6)]);
        }
        "6"
    } else if d == 7 {
        proof {
            reveal_strlit("7");
            assert("7"@ =~= seq![dec_digit_char(7)]);
        }
        "7"
    } else if d == 8 {
        proof {
            reveal_strlit("8");
            assert("8"@ =~= seq![dec_digit_char(8)]);
        }
        "8"
    } else {
        proof {
            reveal_strlit("9");
            assert("9"@ =~= seq![dec_digit_char(9)]);
        }
        "9"
    }
}

/// Renders an id in decimal.
pub fn u64_to_string(n: u64) -> (r: String)
    ensures
        r@ == dec_chars(n as nat),
    decreases n,
{
    if n < 10 {
        dec_digit_str(n).to_owned()
    } else {
        let mut s = u64_to_string(n / 10);
        s.append(dec_digit_str(n % 10));
        s
    }
}

/// The name-list payload: `"@" + name + ";"` for each record, in order.
pub open spec fn name_list_chars(s: Seq<ModView>) -> Seq<char>
    decreases s.len(),
{
    if s.len() == 0 {
        Seq::empty()
    } else {
        name_list_chars(s.drop_last()) + seq!['@'] + s.last().display_name + seq![';']
    }
}

/// The id-list payload: the decimal ids comma-joined, with no trailing
/// comma.
pub open spec fn id_list_chars(s: Seq<ModView>) -> Seq<char>
    decreases s.len(),
{
    if s.len() == 0 {
        Seq::empty()
    } else if s.len() == 1 {
        dec_chars(s[0].id as nat)
    } else {
        id_list_chars(s.drop_last()) + seq![','] + dec_chars(s.last().id as nat)
    }
}

/// The unmatched-entry report: one `"name (id)"` line per entry.
pub open spec fn unmatched_report_chars(s: Seq<(Seq<char>, u64)>) -> Seq<char>
    decreases s.len(),
{
    if s.len() == 0 {
        Seq::empty()
    } else {
        unmatched_report_chars(s.drop_last()) + s.last().0 + seq![' ', '('] + dec_chars(
            s.last().1 as nat,
        ) + seq![')', '\n']
    }
}

/// Builds the name-list payload of the ordered records.
pub fn name_list_payload(mods: &Vec<Mod>) -> (r: String)
    ensures
        r@ == name_list_chars(mods@.map_values(|m: Mod| m@)),
{
    let ghost views = mods@.map_values(|m: Mod| m@);
    let mut out = String::new();
    let mut i: usize = 0;
    proof {
        assert(out@ =~= name_list_chars(views.take(0)));
    }
    while i < mods.len()
        invariant
            0 <= i <= mods.len(),
            views == mods@.map_values(|m: Mod| m@),
            views.len() == mods@.len(),
            out@ == name_list_chars(views.take(i as int)),
        decreases mods.len() - i,
    {
        proof {
            reveal_strlit("@");
            reveal_strlit(";");
            assert("@"@ =~= seq!['@']);
            assert(";"@ =~= seq![';']);
            assert(views.take(i + 1).drop_last() =~= views.take(i as int));
            assert(views.take(i + 1).last() == views[i as int]);
        }
        out.append("@");
        out.append(mods[i].display_name.as_str());
        out.append(";");
        proof {
            assert(mods@[i as int]@ == views[i as int]);
            assert(out@ =~= name_list_chars(views.take(i + 1)));
        }
        i = i + 1;
    }
    proof {
        assert(views.take(views.len() as int) =~= views);
    }
    out
}

/// Builds the id-list payload of the ordered records.
pub fn id_list_payload(mods: &Vec<Mod>) -> (r: String)
    ensures
        r@ == id_list_chars(mods@.map_values(|m: Mod| m@)),
{
    let ghost views = mods@.map_values(|m: Mod| m@);
    let mut out = String::new();
    let mut i: usize = 0;
    proof {
        assert(out@ =~= id_list_chars(views.take(0)));
    }
    while i < mods.len()
        invariant
            0 <= i <= mods.len(),
            views == mods@.map_values(|m: Mod| m@),
            views.len() == mods@.len(),
            out@ == id_list_chars(views.take(i as int)),
        decreases mods.len() - i,
    {
        proof {
            reveal_strlit(",");
            assert(","@ =~= seq![',']);
            assert(views.take(i + 1).drop_last() =~= views.take(i as int));
            assert(views.take(i + 1).last() == views[i as int]);
            assert(mods@[i as int]@ == views[i as int]);
        }
        if i > 0 {
            out.append(",");
        }
        let id_str = u64_to_string(mods[i].id);
        out.append(id_str.as_str());
        proof {
            if i == 0 {
                assert(out@ =~= id_list_chars(views.take(1)));
            } else {
                assert(out@ =~= id_list_chars(views.take(i + 1)));
            }
        }
        i = i + 1;
    }
    proof {
        assert(views.take(views.len() as int) =~= views);
    }
    out
}

/// Renders the unmatched-entry report of (display name, id) pairs.
pub fn render_unknown_mods(unknown: &Vec<(String, u64)>) -> (r: String)
    ensures
        r@ == unmatched_report_chars(unknown_views(unknown@)),
{
    let ghost views = unknown_views(unknown@);
    let mut out = String::new();
    let mut i: usize = 0;
    proof {
        assert(out@ =~= unmatched_report_chars(views.take(0)));
    }
    while i < unknown.len()
        invariant
            0 <= i <= unknown.len(),
            views == unknown_views(unknown@),
            views.len() == unknown@.len(),
            out@ == unmatched_report_chars(views.take(i as int)),
        decreases unknown.len() - i,
    {
        proof {
            reveal_strlit(" (");
            reveal_strlit(")\n");
            assert(" ("@ =~= seq![' ', '(']);
            assert(")\n"@ =~= seq![')', '\n']);
            assert(views.take(i + 1).drop_last() =~= views.take(i as int));
            assert(views.take(i + 1).last() == views[i as int]);
            assert(views[i as int] == (unknown@[i as int].0@, unknown@[i as int].1));
        }
        out.append(unknown[i].0.as_str());
        out.append(" (");
        let id_str = u64_to_string(unknown[i].1);
        out.append(id_str.as_str());
        out.append(")\n");
        proof {
            assert(out@ =~= unmatched_report_chars(views.take(i + 1)));
        }
        i = i + 1;
    }
    proof {
        assert(views.take(views.len() as int) =~= views);
    }
    out
}

/// The mathematical sum of the records' sizes.
pub open spec fn total_size(s: Seq<ModView>) -> int
    decreases s.len(),
{
    if s.len() == 0 {
        0
    } else {
        total_size(s.drop_last()) + s.last().file_size
    }
}

pub proof fn lemma_total_size_monotone(s: Seq<ModView>, k: int)
    requires
        0 <= k <= s.len(),
    ensures
        total_size(s.take(k)) <= total_size(s),
    decreases s.len(),
{
    if k == s.len() {
        assert(s.take(k) =~= s);
    } else {
        assert(s.drop_last().take(k) =~= s.take(k));
        lemma_total_size_monotone(s.drop_last(), k);
    }
}

/// The aggregate byte size of the records, for the summary report; `None`
/// exactly when the sum does not fit in a byte counter.
pub fn total_file_size(mods: &Vec<Mod>) -> (r: Option<u64>)
    ensures
        ({
            let t = total_size(mods@.map_values(|m: Mod| m@));
            match r {
                Some(v) => v == t,
                None => t > u64::MAX,
            }
        }),
{
    let ghost views = mods@.map_values(|m: Mod| m@);
    let mut acc: u64 = 0;
    let mut i: usize = 0;
    proof {
        assert(total_size(views.take(0)) == 0);
    }
    while i < mods.len()
        invariant
            0 <= i <= mods.len(),
            views == mods@.map_values(|m: Mod| m@),
            views.len() == mods@.len(),
            acc == total_size(views.take(i as int)),
        decreases mods.len() - i,
    {
        proof {
            assert(views.take(i + 1).drop_last() =~= views.take(i as int));
            assert(views.take(i + 1).last() == views[i as int]);
            assert(mods@[i as int]@ == views[i as int]);
        }
        let size = mods[i].file_size;
        if size > u64::MAX - acc {
            proof {
                assert(total_size(views.take(i + 1)) > u64::MAX);
                lemma_total_size_monotone(views, i + 1);
            }
            return None;
        }
        acc = acc + size;
        i = i + 1;
    }
    proof {
        assert(views.take(views.len() as int) =~= views);
    }
    Some(acc)
}

/// How often a character occurs in a sequence.
pub open spec fn count_char(s: Seq<char>, c: char) -> nat
    decreases s.len(),
{
    if s.len() == 0 {
        0
    } else {
        count_char(s.drop_last(), c) + if s.last() == c {
            1nat
        } else {
            0nat
        }
    }
}

pub proof fn lemma_count_char_add(a: Seq<char>, b: Seq<char>, c: char)
    ensures
        count_char(a + b, c) == count_char(a, c) + count_char(b, c),
    decreases b.len(),
{
    if b.len() == 0 {
        assert(a + b =~= a);
    } else {
        assert((a + b).drop_last() =~= a + b.drop_last());
        assert((a + b).last() == b.last());
        lemma_count_char_add(a, b.drop_last(), c);
    }
}

pub proof fn lemma_count_char_single(c: char, d: char)
    ensures
        count_char(seq![c], d) == if c == d {
            1nat
        } else {
            0nat
        },
{
    let s = seq![c];
    assert(s.len() == 1);
    assert(s.last() == c);
    assert(s.drop_last() =~= Seq::<char>::empty());
    assert(count_char(s.drop_last(), d) == 0);
}

pub proof fn lemma_count_char_absent(s: Seq<char>, c: char)
    requires
        !s.contains(c),
    ensures
        count_char(s, c) == 0,
    decreases s.len(),
{
    if s.len() > 0 {
        assert(s.last() != c);
        assert(forall|k: int| 0 <= k < s.len() - 1 ==> s.drop_last()[k] == s[k]);
        assert(!s.drop_last().contains(c));
        lemma_count_char_absent(s.drop_last(), c);
    }
}

/// Every character of a decimal rendering is a digit, so it is neither a
/// comma nor a semicolon.
pub proof fn lemma_dec_chars_digits(n: nat)
    ensures
        forall|k: int|
            0 <= k < dec_chars(n).len() ==> '0' as u32 <= #[trigger] dec_chars(n)[k] as u32
                <= '9' as u32,
        !dec_chars(n).contains(','),
    decreases n,
{
    if n < 10 {
    } else {
        lemma_dec_chars_digits(n / 10);
        assert(forall|k: int|
            0 <= k < dec_chars(n).len() - 1 ==> dec_chars(n)[k] == dec_chars(n / 10)[k]);
    }
    if dec_chars(n).contains(',') {
        let k = choose|k: int| 0 <= k < dec_chars(n).len() && dec_chars(n)[k] == ',';
        assert(',' as u32 == 44);
        assert(false);
    }
}

/// Law: the separator counts of the two payloads match the record count —
/// one ';' per record in the name-list (each display name being
/// separator-free) and one ',' between consecutive records in the id-list,
/// none inside the decimal ids. Counting `;`-terminated and `,`-joined
/// tokens therefore yields the record count in both payloads.
pub proof fn lemma_payload_separator_counts(s: Seq<ModView>)
    requires
        forall|k: int| 0 <= k < s.len() ==> !(#[trigger] s[k].display_name).contains(';'),
    ensures
        count_char(name_list_chars(s), ';') == s.len(),
        count_char(id_list_chars(s), ',') == if s.len() == 0 {
            0int
        } else {
            s.len() - 1
        },
    decreases s.len(),
{
    if s.len() == 0 {
    } else {
        assert(forall|k: int|
            0 <= k < s.len() - 1 ==> s.drop_last()[k] == s[k]);
        lemma_payload_separator_counts(s.drop_last());
        let rest = name_list_chars(s.drop_last());
        let name = s.last().display_name;
        lemma_count_char_add(rest, seq!['@'], ';');
        lemma_count_char_add(rest + seq!['@'], name, ';');
        lemma_count_char_add(rest + seq!['@'] + name, seq![';'], ';');
        lemma_count_char_single('@', ';');
        lemma_count_char_single(';', ';');
        assert(s.last() == s[s.len() - 1]);
        lemma_count_char_absent(name, ';');
        if s.len() == 1 {
            lemma_dec_chars_digits(s[0].id as nat);
            lemma_count_char_absent(dec_chars(s[0].id as nat), ',');
        } else {
            let prefix = id_list_chars(s.drop_last());
            let digits = dec_chars(s.last().id as nat);
            lemma_count_char_add(prefix, seq![','], ',');
            lemma_count_char_add(prefix + seq![','], digits, ',');
            lemma_count_char_single(',', ',');
            lemma_dec_chars_digits(s.last().id as nat);
            lemma_count_char_absent(digits, ',');
        }
    }
}

/// Counts the occurrences of a character in a string.
pub fn count_char_in(s: &str, c: char) -> (r: usize)
    ensures
        r == count_char(s@, c),
{
    let n = s.unicode_len();
    let mut r: usize = 0;
    let mut i: usize = 0;
    proof {
        assert(count_char(s@.take(0), c) == 0);
    }
    while i < n
        invariant
            0 <= i <= n,
            n == s@.len(),
            r <= i,
            r == count_char(s@.take(i as int), c),
        decreases n - i,
    {
        proof {
            assert(s@.take(i + 1).drop_last() =~= s@.take(i as int));
            assert(s@.take(i + 1).last() == s@[i as int]);
        }
        if s.get_char(i) == c {
            r = r + 1;
        }
        i = i + 1;
    }
    proof {
        assert(s@.take(s@.len() as int) =~= s@);
    }
    r
}

} // verus!
