//! The archive page: posts grouped by year, and within a year by month,
//! newest month first.
use vstd::prelude::*;
use vstd::string::*;
use crate::post::Post;
use crate::feed::{month_abbrev, month_position};
use crate::text::{chars_eq, chars_of, split_chars, split_on, str_eq, string_of};

verus! {

/// A post as the archive lists it.
pub struct ArchivePost {
    pub slug: String,
    pub title: String,
    pub date: String,
    pub reading_time: usize,
}

/// The posts of one month, in the order of the post list.
pub struct ArchiveMonth {
    pub month: String,
    pub posts: Vec<ArchivePost>,
}

/// The months of one year.
pub struct ArchiveGroup {
    pub year: String,
    pub months: Vec<ArchiveMonth>,
}

/// An archive line as plain values: slug, title, date and reading time.
pub type ArchivePostModel = (Seq<char>, Seq<char>, Seq<char>, nat);

/// A month as plain values: its name and its lines.
pub type MonthModel = (Seq<char>, Seq<ArchivePostModel>);

/// A year as plain values: the year and its months.
pub type GroupModel = (Seq<char>, Seq<MonthModel>);

/// What the archive keeps of a post: its year, its month's name and its
/// line.
pub type EntryModel = (Seq<char>, Seq<char>, ArchivePostModel);

impl ArchivePost {
    pub open spec fn model(&self) -> ArchivePostModel {
        (self.slug@, self.title@, self.date@, self.reading_time as nat)
    }
}

/// The models of a month's lines.
pub open spec fn posts_model(s: Seq<ArchivePost>) -> Seq<ArchivePostModel> {
    Seq::new(s.len(), |i: int| s[i].model())
}

/// The models of a year's months.
pub open spec fn months_model(s: Seq<ArchiveMonth>) -> Seq<MonthModel> {
    Seq::new(s.len(), |i: int| s[i].model())
}

impl ArchiveMonth {
    pub open spec fn model(&self) -> MonthModel {
        (self.month@, posts_model(self.posts@))
    }
}

impl ArchiveGroup {
    pub open spec fn model(&self) -> GroupModel {
        (self.year@, months_model(self.months@))
    }
}

/// The models of a list of years.
pub open spec fn groups_model(gs: Seq<ArchiveGroup>) -> Seq<GroupModel> {
    Seq::new(gs.len(), |i: int| gs[i].model())
}

// ---------------------------------------------------------------------
// months
// ---------------------------------------------------------------------

/// The English name of the month numbered `m` (`"01"` to `"12"`); any
/// other text stands for itself.
pub open spec fn month_name(m: Seq<char>) -> Seq<char> {
    if m == "01"@ {
        "January"@
    } else if m == "02"@ {
        "February"@
    } else if m == "03"@ {
        "March"@
    } else if m == "04"@ {
        "April"@
    } else if m == "05"@ {
        "May"@
    } else if m == "06"@ {
        "June"@
    } else if m == "07"@ {
        "July"@
    } else if m == "08"@ {
        "August"@
    } else if m == "09"@ {
        "September"@
    } else if m == "10"@ {
        "October"@
    } else if m == "11"@ {
        "November"@
    } else if m == "12"@ {
        "December"@
    } else {
        m
    }
}

/// The number of the month called `name`, from 1 for January to 12 for
/// December; 0 for any other text.
pub open spec fn spec_month_index(name: Seq<char>) -> nat {
    if name == "January"@ {
        1
    } else if name == "February"@ {
        2
    } else if name == "March"@ {
        3
    } else if name == "April"@ {
        4
    } else if name == "May"@ {
        5
    } else if name == "June"@ {
        6
    } else if name == "July"@ {
        7
    } else if name == "August"@ {
        8
    } else if name == "September"@ {
        9
    } else if name == "October"@ {
        10
    } else if name == "November"@ {
        11
    } else if name == "December"@ {
        12
    } else {
        0
    }
}

/// The value of a two-digit number such as `"07"`.
pub open spec fn two_digit_value(m: Seq<char>) -> int {
    (m[0] as int - 48) * 10 + (m[1] as int - 48)
}

/// The month `"01"` to `"12"` is named after the month of that number: the
/// name's number (`month_index`) is the month's value, and its first three
/// letters are the abbreviation the feed gives the same month, whose place
/// in the feed's list of months is that value too. So no two months share
/// a name, and the archive files each post under its own month.
pub proof fn lemma_month_name_numbers(m: Seq<char>)
    requires
        m.len() == 2,
        '0' <= m[0] <= '9',
        '0' <= m[1] <= '9',
        1 <= two_digit_value(m) <= 12,
    ensures
        spec_month_index(month_name(m)) == two_digit_value(m),
        month_name(m).take(3) == month_abbrev(m),
        month_position(month_abbrev(m)) == two_digit_value(m),
{
    reveal_strlit("01");
    reveal_strlit("02");
    reveal_strlit("03");
    reveal_strlit("04");
    reveal_strlit("05");
    reveal_strlit("06");
    reveal_strlit("07");
    reveal_strlit("08");
    reveal_strlit("09");
    reveal_strlit("10");
    reveal_strlit("11");
    reveal_strlit("12");
    reveal_strlit("January");
    reveal_strlit("February");
    reveal_strlit("March");
    reveal_strlit("April");
    reveal_strlit("May");
    reveal_strlit("June");
    reveal_strlit("July");
    reveal_strlit("August");
    reveal_strlit("September");
    reveal_strlit("October");
    reveal_strlit("November");
    reveal_strlit("December");
    reveal_strlit("Jan");
    reveal_strlit("Feb");
    reveal_strlit("Mar");
    reveal_strlit("Apr");
    reveal_strlit("May");
    reveal_strlit("Jun");
    reveal_strlit("Jul");
    reveal_strlit("Aug");
    reveal_strlit("Sep");
    reveal_strlit("Oct");
    reveal_strlit("Nov");
    reveal_strlit("Dec");
    reveal_strlit("");
    let v = two_digit_value(m);
    assert(m[0] == '0' || m[0] == '1');
    if v == 1 {
        assert(m =~= "01"@);
        assert(month_name(m) == "January"@);
        assert(spec_month_index("January"@) == 1);
        assert(month_abbrev(m) == "Jan"@);
        assert("January"@.take(3) =~= "Jan"@);
        assert(month_position("Jan"@) == 1);
    } else if v == 2 {
        assert(m =~= "02"@);
        assert(month_name(m) == "February"@);
        assert(spec_month_index("February"@) == 2);
        assert(month_abbrev(m) == "Feb"@);
        assert("February"@.take(3) =~= "Feb"@);
        assert("Feb"@[0] != "Jan"@[0]);
        assert(month_position("Feb"@) == 2);
    } else if v == 3 {
        assert(m =~= "03"@);
        assert(month_name(m) == "March"@);
        assert(spec_month_index("March"@) == 3);
        assert(month_abbrev(m) == "Mar"@);
        assert("March"@.take(3) =~= "Mar"@);
        assert("Mar"@[0] != "Jan"@[0]);
        assert("Mar"@[0] != "Feb"@[0]);
        assert(month_position("Mar"@) == 3);
    } else if v == 4 {
        assert(m =~= "04"@);
        assert(month_name(m) == "April"@);
        assert("April"@[0] != "March"@[0]);
        assert(spec_month_index("April"@) == 4);
        assert(month_abbrev(m) == "Apr"@);
        assert("April"@.take(3) =~= "Apr"@);
        assert("Apr"@[0] != "Jan"@[0]);
        assert("Apr"@[0] != "Feb"@[0]);
        assert("Apr"@[0] != "Mar"@[0]);
        assert(month_position("Apr"@) == 4);
    } else if v == 5 {
        assert(m =~= "05"@);
        assert(month_name(m) == "May"@);
        assert(spec_month_index("May"@) == 5);
        assert(month_abbrev(m) == "May"@);
        assert("May"@.take(3) =~= "May"@);
        assert("May"@[0] != "Jan"@[0]);
        assert("May"@[0] != "Feb"@[0]);
        assert("May"@[2] != "Mar"@[2]);
        assert("May"@[0] != "Apr"@[0]);
        assert(month_position("May"@) == 5);
    } else if v == 6 {
        assert(m =~= "06"@);
        assert(month_name(m) == "June"@);
        assert(spec_month_index("June"@) == 6);
        assert(month_abbrev(m) == "Jun"@);
        assert("June"@.take(3) =~= "Jun"@);
        assert("Jun"@[1] != "Jan"@[1]);
        assert("Jun"@[0] != "Feb"@[0]);
        assert("Jun"@[0] != "Mar"@[0]);
        assert("Jun"@[0] != "Apr"@[0]);
        assert("Jun"@[0] != "May"@[0]);
        assert(month_position("Jun"@) == 6);
    } else if v == 7 {
        assert(m =~= "07"@);
        assert(month_name(m) == "July"@);
        assert("July"@[2] != "June"@[2]);
        assert(spec_month_index("July"@) == 7);
        assert(month_abbrev(m) == "Jul"@);
        assert("July"@.take(3) =~= "Jul"@);
        assert("Jul"@[1] != "Jan"@[1]);
        assert("Jul"@[0] != "Feb"@[0]);
        assert("Jul"@[0] != "Mar"@[0]);
        assert("Jul"@[0] != "Apr"@[0]);
        assert("Jul"@[0] != "May"@[0]);
        assert("Jul"@[2] != "Jun"@[2]);
        assert(month_position("Jul"@) == 7);
    } else if v == 8 {
        assert(m =~= "08"@);
        assert(month_name(m) == "August"@);
        assert(spec_month_index("August"@) == 8);
        assert(month_abbrev(m) == "Aug"@);
        assert("August"@.take(3) =~= "Aug"@);
        assert("Aug"@[0] != "Jan"@[0]);
        assert("Aug"@[0] != "Feb"@[0]);
        assert("Aug"@[0] != "Mar"@[0]);
        assert("Aug"@[1] != "Apr"@[1]);
        assert("Aug"@[0] != "May"@[0]);
        assert("Aug"@[0] != "Jun"@[0]);
        assert("Aug"@[0] != "Jul"@[0]);
        assert(month_position("Aug"@) == 8);
    } else if v == 9 {
        assert(m =~= "09"@);
        assert(month_name(m) == "September"@);
        assert(spec_month_index("September"@) == 9);
        assert(month_abbrev(m) == "Sep"@);
        assert("September"@.take(3) =~= "Sep"@);
        assert("Sep"@[0] != "Jan"@[0]);
        assert("Sep"@[0] != "Feb"@[0]);
        assert("Sep"@[0] != "Mar"@[0]);
        assert("Sep"@[0] != "Apr"@[0]);
        assert("Sep"@[0] != "May"@[0]);
        assert("Sep"@[0] != "Jun"@[0]);
        assert("Sep"@[0] != "Jul"@[0]);
        assert("Sep"@[0] != "Aug"@[0]);
        assert(month_position("Sep"@) == 9);
    } else if v == 10 {
        assert(m =~= "10"@);
        assert(month_name(m) == "October"@);
        assert("October"@[0] != "January"@[0]);
        assert(spec_month_index("October"@) == 10);
        assert(month_abbrev(m) == "Oct"@);
        assert("October"@.take(3) =~= "Oct"@);
        assert("Oct"@[0] != "Jan"@[0]);
        assert("Oct"@[0] != "Feb"@[0]);
        assert("Oct"@[0] != "Mar"@[0]);
        assert("Oct"@[0] != "Apr"@[0]);
        assert("Oct"@[0] != "May"@[0]);
        assert("Oct"@[0] != "Jun"@[0]);
        assert("Oct"@[0] != "Jul"@[0]);
        assert("Oct"@[0] != "Aug"@[0]);
        assert("Oct"@[0] != "Sep"@[0]);
        assert(month_position("Oct"@) == 10);
    } else if v == 11 {
        assert(m =~= "11"@);
        assert(month_name(m) == "November"@);
        assert("November"@[0] != "February"@[0]);
        assert(spec_month_index("November"@) == 11);
        assert(month_abbrev(m) == "Nov"@);
        assert("November"@.take(3) =~= "Nov"@);
        assert("Nov"@[0] != "Jan"@[0]);
        assert("Nov"@[0] != "Feb"@[0]);
        assert("Nov"@[0] != "Mar"@[0]);
        assert("Nov"@[0] != "Apr"@[0]);
        assert("Nov"@[0] != "May"@[0]);
        assert("Nov"@[0] != "Jun"@[0]);
        assert("Nov"@[0] != "Jul"@[0]);
        assert("Nov"@[0] != "Aug"@[0]);
        assert("Nov"@[0] != "Sep"@[0]);
        assert("Nov"@[0] != "Oct"@[0]);
        assert(month_position("Nov"@) == 11);
    } else if v == 12 {
        assert(m =~= "12"@);
        assert(month_name(m) == "December"@);
        assert("December"@[0] != "February"@[0]);
        assert("December"@[0] != "November"@[0]);
        assert(spec_month_index("December"@) == 12);
        assert(month_abbrev(m) == "Dec"@);
        assert("December"@.take(3) =~= "Dec"@);
        assert("Dec"@[0] != "Jan"@[0]);
        assert("Dec"@[0] != "Feb"@[0]);
        assert("Dec"@[0] != "Mar"@[0]);
        assert("Dec"@[0] != "Apr"@[0]);
        assert("Dec"@[0] != "May"@[0]);
        assert("Dec"@[0] != "Jun"@[0]);
        assert("Dec"@[0] != "Jul"@[0]);
        assert("Dec"@[0] != "Aug"@[0]);
        assert("Dec"@[0] != "Sep"@[0]);
        assert("Dec"@[0] != "Oct"@[0]);
        assert("Dec"@[0] != "Nov"@[0]);
        assert(month_position("Dec"@) == 12);
    }
}

/// The number of the month called `name` (0 for an unknown name).
pub fn month_index(name: &str) -> (r: u8)
    ensures
        r == spec_month_index(name@),
{
    if str_eq(name, "January") {
        1
    } else if str_eq(name, "February") {
        2
    } else if str_eq(name, "March") {
        3
    } else if str_eq(name, "April") {
        4
    } else if str_eq(name, "May") {
        5
    } else if str_eq(name, "June") {
        6
    } else if str_eq(name, "July") {
        7
    } else if str_eq(name, "August") {
        8
    } else if str_eq(name, "September") {
        9
    } else if str_eq(name, "October") {
        10
    } else if str_eq(name, "November") {
        11
    } else if str_eq(name, "December") {
        12
    } else {
        0
    }
}

fn is_text(v: &Vec<char>, lit: &str) -> (r: bool)
    ensures
        r == (v@ == lit@),
{
    chars_eq(v, &chars_of(lit))
}

fn month_name_of(m: &Vec<char>) -> (r: String)
    ensures
        r@ == month_name(m@),
{
    if is_text(m, "01") {
        String::from_str("January")
    } else if is_text(m, "02") {
        String::from_str("February")
    } else if is_text(m, "03") {
        String::from_str("March")
    } else if is_text(m, "04") {
        String::from_str("April")
    } else if is_text(m, "05") {
        String::from_str("May")
    } else if is_text(m, "06") {
        String::from_str("June")
    } else if is_text(m, "07") {
        String::from_str("July")
    } else if is_text(m, "08") {
        String::from_str("August")
    } else if is_text(m, "09") {
        String::from_str("September")
    } else if is_text(m, "10") {
        String::from_str("October")
    } else if is_text(m, "11") {
        String::from_str("November")
    } else if is_text(m, "12") {
        String::from_str("December")
    } else {
        string_of(m)
    }
}

// ---------------------------------------------------------------------
// the model of the archive
// ---------------------------------------------------------------------

/// A post's archive entry: the date is cut at `-`; with fewer than two
/// pieces the post is left out, else the first piece is the year and the
/// second names the month.
pub open spec fn entry_of(p: Post) -> Option<EntryModel> {
    let parts = split_on(p.frontmatter.date@, '-');
    if parts.len() < 2 {
        None
    } else {
        Some(
            (
                parts[0],
                month_name(parts[1]),
                (p.slug@, p.frontmatter.title@, p.frontmatter.date@, p.reading_time as nat),
            ),
        )
    }
}

/// The archive entries of a list of posts, in order.
pub open spec fn archive_entries(ps: Seq<Post>) -> Seq<EntryModel>
    decreases ps.len(),
{
    if ps.len() == 0 {
        seq![]
    } else {
        let rest = archive_entries(ps.drop_last());
        match entry_of(ps.last()) {
            Some(e) => rest.push(e),
            None => rest,
        }
    }
}

/// The years of the entries, each once, in the order they first occur.
pub open spec fn years_of(es: Seq<EntryModel>) -> Seq<Seq<char>>
    decreases es.len(),
{
    if es.len() == 0 {
        seq![]
    } else {
        let d = years_of(es.drop_last());
        if d.contains(es.last().0) {
            d
        } else {
            d.push(es.last().0)
        }
    }
}

/// The month names of year `y`, each once, in the order they first occur.
pub open spec fn months_of(es: Seq<EntryModel>, y: Seq<char>) -> Seq<Seq<char>>
    decreases es.len(),
{
    if es.len() == 0 {
        seq![]
    } else {
        let d = months_of(es.drop_last(), y);
        let e = es.last();
        if e.0 != y || d.contains(e.1) {
            d
        } else {
            d.push(e.1)
        }
    }
}

/// The lines of month `m` of year `y`, in order.
pub open spec fn posts_of(es: Seq<EntryModel>, y: Seq<char>, m: Seq<char>) -> Seq<ArchivePostModel>
    decreases es.len(),
{
    if es.len() == 0 {
        seq![]
    } else {
        let d = posts_of(es.drop_last(), y, m);
        let e = es.last();
        if e.0 == y && e.1 == m {
            d.push(e.2)
        } else {
            d
        }
    }
}

/// `m` put into `s` just before the first month whose number is smaller.
pub open spec fn insert_month(s: Seq<Seq<char>>, m: Seq<char>) -> Seq<Seq<char>>
    decreases s.len(),
{
    if s.len() == 0 {
        seq![m]
    } else if spec_month_index(s[0]) < spec_month_index(m) {
        seq![m] + s
    } else {
        seq![s[0]] + insert_month(s.drop_first(), m)
    }
}

/// Months ordered by number, December first; months of equal number keep
/// their order (a stable sort, descending).
pub open spec fn sort_months(s: Seq<Seq<char>>) -> Seq<Seq<char>>
    decreases s.len(),
{
    if s.len() == 0 {
        seq![]
    } else {
        insert_month(sort_months(s.drop_last()), s.last())
    }
}

/// The archive of a list of posts: one group per year in the order the
/// years first occur, and in each the months, newest first, with their
/// lines in the order of the list.
pub open spec fn spec_archive(ps: Seq<Post>) -> Seq<GroupModel> {
    let es = archive_entries(ps);
    Seq::new(
        years_of(es).len(),
        |i: int|
            {
                let y = years_of(es)[i];
                let ms = sort_months(months_of(es, y));
                (y, Seq::new(ms.len(), |j: int| (ms[j], posts_of(es, y, ms[j]))))
            },
    )
}

// ---------------------------------------------------------------------
// laws
// ---------------------------------------------------------------------

/// Inserting a month keeps the list's months and adds one.
proof fn lemma_insert_month_perm(s: Seq<Seq<char>>, m: Seq<char>)
    ensures
        insert_month(s, m).len() == s.len() + 1,
        forall|x: Seq<char>| #[trigger] insert_month(s, m).contains(x) <==> (s.contains(x) || x == m),
    decreases s.len(),
{
    if s.len() > 0 && !(spec_month_index(s[0]) < spec_month_index(m)) {
        lemma_insert_month_perm(s.drop_first(), m);
        let t = insert_month(s.drop_first(), m);
        assert forall|x: Seq<char>| #[trigger] insert_month(s, m).contains(x) <==> (s.contains(x)
            || x == m) by {
            if insert_month(s, m).contains(x) {
                let k = choose|k: int| 0 <= k < insert_month(s, m).len() && insert_month(s, m)[k] == x;
                if k > 0 {
                    assert(t[k - 1] == x);
                    assert(t.contains(x));
                    if x != m {
                        assert(s.drop_first().contains(x));
                        let j = choose|j: int| 0 <= j < s.drop_first().len() && s.drop_first()[j] == x;
                        assert(s[j + 1] == x);
                    }
                } else {
                    assert(s[0] == x);
                }
            }
            if s.contains(x) {
                let j = choose|j: int| 0 <= j < s.len() && s[j] == x;
                if j == 0 {
                    assert(insert_month(s, m)[0] == x);
                } else {
                    assert(s.drop_first()[j - 1] == x);
                    assert(t.contains(x));
                    let k = choose|k: int| 0 <= k < t.len() && t[k] == x;
                    assert(insert_month(s, m)[k + 1] == x);
                }
            }
            if x == m {
                assert(t.contains(m));
                let k = choose|k: int| 0 <= k < t.len() && t[k] == m;
                assert(insert_month(s, m)[k + 1] == x);
            }
        }
    } else if s.len() > 0 {
        assert forall|x: Seq<char>| #[trigger] insert_month(s, m).contains(x) <==> (s.contains(x)
            || x == m) by {
            if insert_month(s, m).contains(x) {
                let k = choose|k: int| 0 <= k < insert_month(s, m).len() && insert_month(s, m)[k] == x;
                if k > 0 {
                    assert(s[k - 1] == x);
                }
            }
            if s.contains(x) {
                let j = choose|j: int| 0 <= j < s.len() && s[j] == x;
                assert(insert_month(s, m)[j + 1] == x);
            }
            if x == m {
                assert(insert_month(s, m)[0] == x);
            }
        }
    } else {
        assert forall|x: Seq<char>| #[trigger] insert_month(s, m).contains(x) <==> (s.contains(x)
            || x == m) by {
            if x == m {
                assert(insert_month(s, m)[0] == x);
            }
        }
    }
}

/// Inserting a month into months ordered newest first keeps them so.
proof fn lemma_insert_month_sorted(s: Seq<Seq<char>>, m: Seq<char>)
    requires
        forall|i: int, j: int|
            0 <= i < j < s.len() ==> spec_month_index(s[i]) >= spec_month_index(s[j]),
    ensures
        forall|i: int, j: int|
            0 <= i < j < insert_month(s, m).len() ==> spec_month_index(insert_month(s, m)[i])
                >= spec_month_index(insert_month(s, m)[j]),
    decreases s.len(),
{
    if s.len() > 0 && !(spec_month_index(s[0]) < spec_month_index(m)) {
        let t = s.drop_first();
        lemma_insert_month_sorted(t, m);
        lemma_insert_month_perm(t, m);
        let r = insert_month(s, m);
        let ti = insert_month(t, m);
        assert forall|i: int, j: int| 0 <= i < j < r.len() implies spec_month_index(r[i])
            >= spec_month_index(r[j]) by {
            if i == 0 {
                assert(r[j] == ti[j - 1]);
                assert(ti.contains(ti[j - 1]));
                if ti[j - 1] != m {
                    assert(t.contains(ti[j - 1]));
                    let k = choose|k: int| 0 <= k < t.len() && t[k] == ti[j - 1];
                    assert(s[k + 1] == t[k]);
                }
            } else {
                assert(r[i] == ti[i - 1]);
                assert(r[j] == ti[j - 1]);
            }
        }
    } else if s.len() > 0 {
        let r = insert_month(s, m);
        assert forall|i: int, j: int| 0 <= i < j < r.len() implies spec_month_index(r[i])
            >= spec_month_index(r[j]) by {
            if i == 0 {
                assert(spec_month_index(s[0]) >= spec_month_index(s[j - 1]) || j - 1 == 0);
            } else {
                assert(r[i] == s[i - 1]);
            }
        }
    }
}

/// Sorting orders the months newest first.
proof fn lemma_sort_months_sorted(s: Seq<Seq<char>>)
    ensures
        forall|i: int, j: int|
            0 <= i < j < sort_months(s).len() ==> spec_month_index(sort_months(s)[i])
                >= spec_month_index(sort_months(s)[j]),
    decreases s.len(),
{
    if s.len() > 0 {
        lemma_sort_months_sorted(s.drop_last());
        lemma_insert_month_sorted(sort_months(s.drop_last()), s.last());
    }
}

/// The years of the entries are pairwise different.
proof fn lemma_years_distinct(es: Seq<EntryModel>)
    ensures
        forall|i: int, j: int|
            0 <= i < j < years_of(es).len() ==> years_of(es)[i] != years_of(es)[j],
    decreases es.len(),
{
    if es.len() > 0 {
        lemma_years_distinct(es.drop_last());
        let d = years_of(es.drop_last());
        if !d.contains(es.last().0) {
            assert forall|i: int, j: int| 0 <= i < j < years_of(es).len() implies years_of(es)[i]
                != years_of(es)[j] by {
                if j == d.len() {
                    assert(d[i] != es.last().0);
                }
            }
        }
    }
}

/// The archive names each year once, and lists the months of each year
/// newest first.
pub proof fn lemma_archive_order(ps: Seq<Post>)
    ensures
        forall|i: int, j: int|
            0 <= i < j < spec_archive(ps).len() ==> spec_archive(ps)[i].0 != spec_archive(ps)[j].0,
        forall|g: int, i: int, j: int|
            0 <= g < spec_archive(ps).len() && 0 <= i < j < spec_archive(ps)[g].1.len()
                ==> spec_month_index(spec_archive(ps)[g].1[i].0) >= spec_month_index(
                spec_archive(ps)[g].1[j].0,
            ),
{
    let es = archive_entries(ps);
    lemma_years_distinct(es);
    assert forall|g: int, i: int, j: int|
        0 <= g < spec_archive(ps).len() && 0 <= i < j < spec_archive(ps)[g].1.len()
            implies spec_month_index(spec_archive(ps)[g].1[i].0) >= spec_month_index(
            spec_archive(ps)[g].1[j].0,
        ) by {
        lemma_sort_months_sorted(months_of(es, years_of(es)[g]));
    }
}

// ---------------------------------------------------------------------
// building the archive
// ---------------------------------------------------------------------

/// A post's archive entry.
struct Entry {
    year: String,
    month: String,
    post: ArchivePost,
}

impl Entry {
    spec fn model(&self) -> EntryModel {
        (self.year@, self.month@, self.post.model())
    }
}

spec fn entries_model(s: Seq<Entry>) -> Seq<EntryModel> {
    Seq::new(s.len(), |i: int| s[i].model())
}

/// The texts of a list of strings.
pub open spec fn strs(v: Seq<String>) -> Seq<Seq<char>> {
    Seq::new(v.len(), |i: int| v[i]@)
}

fn collect_entries(posts: &[Post]) -> (es: Vec<Entry>)
    ensures
        entries_model(es@) == archive_entries(posts@),
{
    let mut es: Vec<Entry> = Vec::new();
    let mut i: usize = 0;
    while i < posts.len()
        invariant
            i <= posts@.len(),
            entries_model(es@) == archive_entries(posts@.take(i as int)),
        decreases posts@.len() - i,
    {
        let p = &posts[i];
        proof {
            assert(posts@.take(i + 1).drop_last() =~= posts@.take(i as int));
            assert(posts@.take(i + 1).last() == posts@[i as int]);
        }
        let d = chars_of(p.frontmatter.date.as_str());
        let parts = split_chars(&d, '-');
        if parts.len() >= 2 {
            let year = string_of(&parts[0]);
            let month = month_name_of(&parts[1]);
            let post = ArchivePost {
                slug: p.slug.clone(),
                title: p.frontmatter.title.clone(),
                date: p.frontmatter.date.clone(),
                reading_time: p.reading_time,
            };
            let ghost before = es@;
            es.push(Entry { year, month, post });
            proof {
                assert(entries_model(es@) =~= entries_model(before).push(es@.last().model()));
            }
        }
        i = i + 1;
    }
    proof {
        assert(posts@.take(posts@.len() as int) =~= posts@);
    }
    es
}

pub(crate) fn contains_string(v: &Vec<String>, x: &String) -> (r: bool)
    ensures
        r == strs(v@).contains(x@),
{
    let mut k: usize = 0;
    while k < v.len()
        invariant
            k <= v@.len(),
            forall|j: int| 0 <= j < k ==> v@[j]@ != x@,
        decreases v@.len() - k,
    {
        if v[k] == *x {
            proof {
                assert(strs(v@)[k as int] == x@);
            }
            return true;
        }
        k = k + 1;
    }
    proof {
        assert forall|j: int| 0 <= j < strs(v@).len() implies strs(v@)[j] != x@ by {
            assert(v@[j]@ != x@);
        }
    }
    false
}

fn collect_years(es: &Vec<Entry>) -> (ys: Vec<String>)
    ensures
        strs(ys@) == years_of(entries_model(es@)),
{
    let ghost em = entries_model(es@);
    let mut ys: Vec<String> = Vec::new();
    let mut k: usize = 0;
    while k < es.len()
        invariant
            k <= es@.len(),
            em == entries_model(es@),
            strs(ys@) == years_of(em.take(k as int)),
        decreases es@.len() - k,
    {
        proof {
            assert(em.take(k + 1).drop_last() =~= em.take(k as int));
            assert(em.take(k + 1).last() == es@[k as int].model());
        }
        if !contains_string(&ys, &es[k].year) {
            let ghost before = ys@;
            ys.push(es[k].year.clone());
            proof {
                assert(strs(ys@) =~= strs(before).push(es@[k as int].year@));
            }
        }
        k = k + 1;
    }
    proof {
        assert(em.take(es@.len() as int) =~= em);
    }
    ys
}

fn collect_months(es: &Vec<Entry>, y: &String) -> (ms: Vec<String>)
    ensures
        strs(ms@) == months_of(entries_model(es@), y@),
{
    let ghost em = entries_model(es@);
    let mut ms: Vec<String> = Vec::new();
    let mut k: usize = 0;
    while k < es.len()
        invariant
            k <= es@.len(),
            em == entries_model(es@),
            strs(ms@) == months_of(em.take(k as int), y@),
        decreases es@.len() - k,
    {
        proof {
            assert(em.take(k + 1).drop_last() =~= em.take(k as int));
            assert(em.take(k + 1).last() == es@[k as int].model());
        }
        if es[k].year == *y && !contains_string(&ms, &es[k].month) {
            let ghost before = ms@;
            ms.push(es[k].month.clone());
            proof {
                assert(strs(ms@) =~= strs(before).push(es@[k as int].month@));
            }
        }
        k = k + 1;
    }
    proof {
        assert(em.take(es@.len() as int) =~= em);
    }
    ms
}

fn collect_posts(es: &Vec<Entry>, y: &String, m: &String) -> (r: Vec<ArchivePost>)
    ensures
        posts_model(r@) == posts_of(entries_model(es@), y@, m@),
{
    let ghost em = entries_model(es@);
    let mut r: Vec<ArchivePost> = Vec::new();
    let mut k: usize = 0;
    while k < es.len()
        invariant
            k <= es@.len(),
            em == entries_model(es@),
            posts_model(r@) == posts_of(em.take(k as int), y@, m@),
        decreases es@.len() - k,
    {
        proof {
            assert(em.take(k + 1).drop_last() =~= em.take(k as int));
            assert(em.take(k + 1).last() == es@[k as int].model());
        }
        if es[k].year == *y && es[k].month == *m {
            let p = &es[k].post;
            let ghost before = r@;
            r.push(
                ArchivePost {
                    slug: p.slug.clone(),
                    title: p.title.clone(),
                    date: p.date.clone(),
                    reading_time: p.reading_time,
                },
            );
            proof {
                assert(posts_model(r@) =~= posts_model(before).push(es@[k as int].post.model()));
            }
        }
        k = k + 1;
    }
    proof {
        assert(em.take(es@.len() as int) =~= em);
    }
    r
}

/// Inserting before the first month with a smaller number is inserting at
/// that index.
proof fn lemma_insert_month_at(s: Seq<Seq<char>>, m: Seq<char>, j: int)
    requires
        0 <= j <= s.len(),
        forall|k: int| 0 <= k < j ==> !(spec_month_index(#[trigger] s[k]) < spec_month_index(m)),
        j < s.len() ==> spec_month_index(s[j]) < spec_month_index(m),
    ensures
        insert_month(s, m) == s.take(j) + seq![m] + s.skip(j),
    decreases s.len(),
{
    if s.len() == 0 {
        assert(s.take(j) + seq![m] + s.skip(j) =~= seq![m]);
    } else if j == 0 {
        assert(s.take(0) + seq![m] + s.skip(0) =~= seq![m] + s);
    } else {
        let t = s.drop_first();
        assert forall|k: int| 0 <= k < j - 1 implies !(spec_month_index(#[trigger] t[k])
            < spec_month_index(m)) by {
            assert(t[k] == s[k + 1]);
        }
        if j - 1 < t.len() {
            assert(t[j - 1] == s[j]);
        }
        lemma_insert_month_at(t, m, j - 1);
        assert(!(spec_month_index(s[0]) < spec_month_index(m)));
        assert(seq![s[0]] + (t.take(j - 1) + seq![m] + t.skip(j - 1)) =~= s.take(j) + seq![m]
            + s.skip(j));
    }
}

fn sort_month_names(ms: Vec<String>) -> (r: Vec<String>)
    ensures
        strs(r@) == sort_months(strs(ms@)),
{
    let ghost orig = strs(ms@);
    let mut sorted: Vec<String> = Vec::new();
    let mut n: usize = 0;
    while n < ms.len()
        invariant
            n <= ms@.len(),
            orig == strs(ms@),
            strs(sorted@) == sort_months(orig.take(n as int)),
        decreases ms@.len() - n,
    {
        let x = ms[n].clone();
        let xi = month_index(x.as_str());
        let mut j: usize = 0;
        while j < sorted.len() && !(month_index(sorted[j].as_str()) < xi)
            invariant
                j <= sorted@.len(),
                xi == spec_month_index(x@),
                forall|k: int|
                    0 <= k < j ==> !(spec_month_index(#[trigger] strs(sorted@)[k])
                        < spec_month_index(x@)),
            decreases sorted@.len() - j,
        {
            j = j + 1;
        }
        proof {
            lemma_insert_month_at(strs(sorted@), x@, j as int);
            assert(orig.take(n + 1).drop_last() =~= orig.take(n as int));
            assert(orig.take(n + 1).last() == x@);
        }
        let ghost before = sorted@;
        sorted.insert(j, x);
        proof {
            assert(strs(sorted@) =~= strs(before).take(j as int) + seq![ms@[n as int]@] + strs(
                before,
            ).skip(j as int));
        }
        n = n + 1;
    }
    proof {
        assert(orig.take(ms@.len() as int) =~= orig);
    }
    sorted
}

/// Groups posts by year, in the order the years first occur in the list,
/// and within a year by month, newest month first; each month lists its
/// posts in the order of the list. A post whose date has no `-` is left out.
pub fn group_by_year_month(posts: &[Post]) -> (r: Vec<ArchiveGroup>)
    ensures
        groups_model(r@) == spec_archive(posts@),
{
    let es = collect_entries(posts);
    let ghost em = entries_model(es@);
    let years = collect_years(&es);
    let mut groups: Vec<ArchiveGroup> = Vec::new();
    let mut g: usize = 0;
    while g < years.len()
        invariant
            g <= years@.len(),
            em == entries_model(es@),
            em == archive_entries(posts@),
            strs(years@) == years_of(em),
            groups@.len() == g,
            forall|k: int| 0 <= k < g ==> #[trigger] groups@[k].model() == spec_archive(posts@)[k],
        decreases years@.len() - g,
    {
        let y = &years[g];
        let ms = sort_month_names(collect_months(&es, y));
        let ghost msm = strs(ms@);
        let mut months: Vec<ArchiveMonth> = Vec::new();
        let mut j: usize = 0;
        while j < ms.len()
            invariant
                j <= ms@.len(),
                em == entries_model(es@),
                msm == strs(ms@),
                months@.len() == j,
                forall|k: int|
                    0 <= k < j ==> #[trigger] months@[k].model() == (msm[k], posts_of(
                        em,
                        y@,
                        msm[k],
                    )),
            decreases ms@.len() - j,
        {
            let ps = collect_posts(&es, y, &ms[j]);
            months.push(ArchiveMonth { month: ms[j].clone(), posts: ps });
            j = j + 1;
        }
        proof {
            assert(strs(years@)[g as int] == y@);
            assert(months_model(months@) =~= Seq::new(
                msm.len(),
                |j: int| (msm[j], posts_of(em, y@, msm[j])),
            ));
        }
        groups.push(ArchiveGroup { year: y.clone(), months });
        g = g + 1;
    }
    proof {
        assert(groups_model(groups@) =~= spec_archive(posts@));
    }
    groups
}

} // verus!
