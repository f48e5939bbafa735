//! The list of Russian IPv4 networks: extraction from the RIPE NCC
//! delegation statistics, and the text file it is kept in.
use vstd::prelude::*;
use vstd::arithmetic::power2::{pow2, lemma2_to64, lemma_pow2_unfold};
use crate::config::{data_dir, data_dir_spec, join_path, join_path_spec};
use crate::text::{
    digit_char, has_char, is_digit, lemma_lines_avoid, lemma_lines_join, lemma_split_pieces_avoid,
    lemma_lines_concat, lemma_split_nonempty, strip_cr,
    append_chars, chars_eq, chars_of, dec_chars, dec_string, join_spec, join_strings, lines,
    lines_spec, nonempty_lines, nonempty_lines_spec, parse_unsigned, parse_unsigned_spec,
    split_chars, split_spec, string_views, views,
};

verus! {

// ---------------------------------------------------------------------------
// Specifications
// ---------------------------------------------------------------------------
/// The largest `k` with `2^k <= n` (0 for 0 and 1).
pub open spec fn log2_floor(n: nat) -> nat
    decreases n,
{
    if n <= 1 {
        0
    } else {
        1 + log2_floor(n / 2)
    }
}

/// Prefix length of a block of `count` addresses: `32 - floor(log2(count))`.
pub open spec fn count_to_prefix_spec(count: u32) -> u8 {
    (32 - log2_floor(count as nat)) as u8
}

/// One line of the statistics: `registry|CC|type|start|count|date|status`.
/// Lines with at least six fields, country `RU` and type `ipv4` whose count
/// parses give `start/prefix`.
pub open spec fn ru_entry(line: Seq<char>) -> Option<Seq<char>> {
    let parts = split_spec(line, '|');
    if parts.len() < 6 || parts[1] != "RU"@ || parts[2] != "ipv4"@ {
        None
    } else {
        match parse_unsigned_spec(parts[4], u32::MAX as nat) {
            None => None,
            Some(count) => Some(
                parts[3] + seq!['/'] + dec_chars(count_to_prefix_spec(count as u32) as nat),
            ),
        }
    }
}

pub open spec fn ru_entries(ls: Seq<Seq<char>>) -> Seq<Seq<char>>
    decreases ls.len(),
{
    if ls.len() == 0 {
        Seq::empty()
    } else {
        let r = ru_entries(ls.drop_last());
        match ru_entry(ls.last()) {
            Some(e) => r.push(e),
            None => r,
        }
    }
}

/// The CIDR strings found in the statistics, in file order.
pub open spec fn parse_ru_subnets_spec(content: Seq<char>) -> Seq<Seq<char>> {
    ru_entries(lines_spec(content))
}

pub open spec fn subnet_file_spec(home: Seq<char>, sep: char) -> Seq<char> {
    join_path_spec(data_dir_spec(home, sep), "ru_subnets.txt"@, sep)
}

// ---------------------------------------------------------------------------
// Lemmas
// ---------------------------------------------------------------------------
/// Below `2^k`, the floor of the logarithm is below `k`.
pub proof fn lemma_log2_bound(n: nat, k: nat)
    requires
        n < pow2(k),
        k >= 1,
    ensures
        log2_floor(n) < k,
    decreases k,
{
    if n > 1 {
        lemma_pow2_unfold(k);
        if k == 1 {
            lemma2_to64();
        } else {
            lemma_log2_bound(n / 2, (k - 1) as nat);
        }
    }
}

/// `floor(log2(2^k)) == k`.
pub proof fn lemma_log2_pow2(k: nat)
    ensures
        log2_floor(pow2(k)) == k,
    decreases k,
{
    if k == 0 {
        lemma2_to64();
    } else {
        lemma_pow2_unfold(k);
        vstd::arithmetic::power2::lemma_pow2_pos((k - 1) as nat);
        lemma_log2_pow2((k - 1) as nat);
        assert(pow2(k) / 2 == pow2((k - 1) as nat));
    }
}

/// A block of `2^k` addresses has prefix length `32 - k`.
pub proof fn lemma_prefix_of_block(k: nat)
    requires
        k <= 31,
    ensures
        pow2(k) <= u32::MAX,
        count_to_prefix_spec(pow2(k) as u32) == 32 - k,
{
    lemma2_to64();
    vstd::arithmetic::power2::lemma_pow2_strictly_increases(k, 32);
    lemma_log2_pow2(k);
}

/// `2^floor(log2(n)) <= n < 2^(floor(log2(n)) + 1)` for every positive `n`.
pub proof fn lemma_log2_brackets(n: nat)
    requires
        n >= 1,
    ensures
        pow2(log2_floor(n)) <= n < pow2(log2_floor(n) + 1),
    decreases n,
{
    if n <= 1 {
        lemma2_to64();
    } else {
        lemma_log2_brackets(n / 2);
        let k = log2_floor(n / 2);
        lemma_pow2_unfold(k + 1);
        lemma_pow2_unfold(k + 2);
    }
}

/// The floor of the logarithm grows with its argument.
pub proof fn lemma_log2_monotonic(a: nat, b: nat)
    requires
        a <= b,
    ensures
        log2_floor(a) <= log2_floor(b),
    decreases b,
{
    if a > 1 {
        lemma_log2_monotonic(a / 2, b / 2);
    }
}

/// A block of `count >= 1` addresses gets the prefix length `p` with
/// `2^(32 - p) <= count < 2^(33 - p)`, between 1 and 32.
pub proof fn lemma_prefix_brackets(count: u32)
    requires
        count >= 1,
    ensures
        1 <= count_to_prefix_spec(count) <= 32,
        pow2((32 - count_to_prefix_spec(count)) as nat) <= count,
        count < pow2((33 - count_to_prefix_spec(count)) as nat),
{
    lemma2_to64();
    lemma_log2_bound(count as nat, 32);
    lemma_log2_brackets(count as nat);
}

/// A larger block never gets a longer prefix.
pub proof fn lemma_prefix_monotonic(c1: u32, c2: u32)
    requires
        c1 <= c2,
    ensures
        count_to_prefix_spec(c1) >= count_to_prefix_spec(c2),
{
    lemma2_to64();
    lemma_log2_bound(c2 as nat, 32);
    lemma_log2_monotonic(c1 as nat, c2 as nat);
}

/// The decimal form of a number is made of digits.
proof fn lemma_dec_chars_digits(n: nat)
    ensures
        dec_chars(n).len() > 0,
        forall|j: int| 0 <= j < dec_chars(n).len() ==> is_digit(#[trigger] dec_chars(n)[j]),
    decreases n,
{
    if n >= 10 {
        lemma_dec_chars_digits(n / 10);
        assert(is_digit(digit_char(n % 10)));
    } else {
        assert(is_digit(digit_char(n)));
    }
}

/// An entry of the list is not empty, holds no line feed and does not end
/// with a carriage return.
pub open spec fn plain_entry(e: Seq<char>) -> bool {
    e.len() > 0 && !has_char(e, '\n') && e.last() != '\r'
}

/// An entry made from a line without line feeds is a plain entry.
proof fn lemma_ru_entry_plain(line: Seq<char>)
    requires
        !has_char(line, '\n'),
    ensures
        ru_entry(line) matches Some(e) ==> plain_entry(e),
{
    let parts = split_spec(line, '|');
    if let Some(e) = ru_entry(line) {
        lemma_split_pieces_avoid(line, '|', '\n');
        let count = parse_unsigned_spec(parts[4], u32::MAX as nat)->0;
        let d = dec_chars(count_to_prefix_spec(count as u32) as nat);
        lemma_dec_chars_digits(count_to_prefix_spec(count as u32) as nat);
        assert(e == parts[3] + seq!['/'] + d);
        assert(!has_char(parts[3], '\n'));
        assert(e.last() == d.last());
        assert(is_digit(d[d.len() - 1]));
        assert(!has_char(e, '\n')) by {
            if has_char(e, '\n') {
                let k = choose|k: int| 0 <= k < e.len() && e[k] == '\n';
                if k < parts[3].len() {
                    assert(parts[3][k] == '\n');
                } else if k > parts[3].len() {
                    assert(is_digit(d[k - parts[3].len() - 1]));
                }
            }
        }
    }
}

/// Every entry made from lines without line feeds is a plain entry.
proof fn lemma_ru_entries_plain(ls: Seq<Seq<char>>)
    requires
        forall|i: int| 0 <= i < ls.len() ==> !has_char(#[trigger] ls[i], '\n'),
    ensures
        forall|i: int| 0 <= i < ru_entries(ls).len() ==> plain_entry(#[trigger] ru_entries(ls)[i]),
    decreases ls.len(),
{
    if ls.len() > 0 {
        let d = ls.drop_last();
        assert forall|i: int| 0 <= i < d.len() implies !has_char(#[trigger] d[i], '\n') by {
            assert(d[i] == ls[i]);
        }
        lemma_ru_entries_plain(d);
        assert(ls.last() == ls[ls.len() - 1]);
        lemma_ru_entry_plain(ls.last());
        let r = ru_entries(d);
        assert forall|i: int| 0 <= i < ru_entries(ls).len() implies plain_entry(
            #[trigger] ru_entries(ls)[i],
        ) by {
            match ru_entry(ls.last()) {
                Some(e) => {
                    if i < r.len() {
                        assert(ru_entries(ls)[i] == r[i]);
                    } else {
                        assert(ru_entries(ls)[i] == e);
                    }
                },
                None => {
                    assert(ru_entries(ls)[i] == r[i]);
                },
            }
        }
    }
}

/// The list written to the subnet file (one network per line) is read back
/// as the same list.
pub proof fn lemma_saved_list_reads_back(content: Seq<char>)
    ensures
        nonempty_lines_spec(join_spec(parse_ru_subnets_spec(content), '\n'))
            == parse_ru_subnets_spec(content),
{
    lemma_lines_avoid(content, '\n');
    lemma_ru_entries_plain(lines_spec(content));
    let list = parse_ru_subnets_spec(content);
    assert forall|i: int| 0 <= i < list.len() implies (#[trigger] list[i]).len() > 0 && !has_char(
        list[i],
        '\n',
    ) && list[i].last() != '\r' by {
        assert(plain_entry(list[i]));
    }
    lemma_lines_join(list);
}

proof fn lemma_ru_entries_concat(x: Seq<Seq<char>>, y: Seq<Seq<char>>)
    ensures
        ru_entries(x + y) == ru_entries(x) + ru_entries(y),
    decreases y.len(),
{
    if y.len() == 0 {
        assert(x + y =~= x);
        assert(ru_entries(x) + ru_entries(y) =~= ru_entries(x));
    } else {
        lemma_ru_entries_concat(x, y.drop_last());
        assert((x + y).drop_last() =~= x + y.drop_last());
        assert((x + y).last() == y.last());
        match ru_entry(y.last()) {
            Some(e) => {
                assert(ru_entries(x + y) =~= ru_entries(x) + ru_entries(y));
            },
            None => {},
        }
    }
}

/// A carriage return at the end of a line does not change its entry: it
/// only ends the last field, which no entry reads.
proof fn lemma_ru_entry_strip_cr(l: Seq<char>)
    ensures
        ru_entry(strip_cr(l)) == ru_entry(l),
{
    if l.len() > 0 && l.last() == '\r' {
        let d = l.drop_last();
        assert(d.push('\r') =~= l);
        lemma_split_nonempty(d, '|');
        let p = split_spec(d, '|');
        let q = split_spec(l, '|');
        assert(q == p.update(p.len() - 1, p.last().push('\r')));
        assert(q.len() == p.len());
        if p.len() >= 6 {
            assert(q[1] == p[1] && q[2] == p[2] && q[3] == p[3] && q[4] == p[4]);
        }
    }
}

proof fn lemma_ru_entries_lines(a: Seq<char>)
    ensures
        ru_entries(split_spec(a, '\n').map_values(|l: Seq<char>| strip_cr(l))) == ru_entries(
            lines_spec(a),
        ),
{
    lemma_split_nonempty(a, '\n');
    let p = split_spec(a, '\n');
    let m = p.map_values(|l: Seq<char>| strip_cr(l));
    let init = p.drop_last().map_values(|l: Seq<char>| strip_cr(l));
    assert(m.drop_last() =~= init);
    assert(m.last() == strip_cr(p.last()));
    lemma_ru_entry_strip_cr(p.last());
    if p.last().len() == 0 {
        assert(split_spec(Seq::<char>::empty(), '|') == seq![Seq::<char>::empty()]);
        assert(strip_cr(p.last()) == p.last());
        assert(ru_entry(p.last()) is None);
        assert(lines_spec(a) == init);
    } else {
        assert(lines_spec(a) == init.push(p.last()));
        assert(lines_spec(a).drop_last() =~= init);
    }
}

/// Reading two statistics texts joined by a line feed gives the networks of
/// the first followed by those of the second.
pub proof fn lemma_parse_concat(a: Seq<char>, b: Seq<char>)
    ensures
        parse_ru_subnets_spec(a + seq!['\n'] + b) == parse_ru_subnets_spec(a) + parse_ru_subnets_spec(
            b,
        ),
{
    lemma_lines_concat(a, b);
    lemma_ru_entries_concat(
        split_spec(a, '\n').map_values(|l: Seq<char>| strip_cr(l)),
        lines_spec(b),
    );
    lemma_ru_entries_lines(a);
}

// ---------------------------------------------------------------------------
// Executable functions
// ---------------------------------------------------------------------------
/// Prefix length of a block of `count` addresses: 256 gives 24, 512 gives 23.
pub fn count_to_prefix(count: u32) -> (p: u8)
    ensures
        p == count_to_prefix_spec(count),
        p <= 32,
{
    proof {
        lemma2_to64();
        lemma_log2_bound(count as nat, 32);
    }
    let mut bits: u8 = 32;
    let mut n = count;
    while n > 1
        invariant
            log2_floor(count as nat) < 32,
            bits as nat + log2_floor(count as nat) == 32 + log2_floor(n as nat),
            bits <= 32,
        decreases n,
    {
        n = n / 2;
        bits = bits - 1;
    }
    bits
}

/// Extracts `start/prefix` for every Russian IPv4 allocation in the RIPE NCC
/// statistics, in file order.
pub fn parse_ru_subnets(content: &str) -> (r: Vec<String>)
    ensures
        string_views(r@) == parse_ru_subnets_spec(content@),
{
    let chars = chars_of(content);
    let ls = lines(&chars);
    let ru = chars_of("RU");
    let ipv4 = chars_of("ipv4");
    let ghost lv = views(ls@);
    let mut out: Vec<String> = Vec::new();
    let mut i: usize = 0;
    while i < ls.len()
        invariant
            i <= ls.len(),
            lv == views(ls@),
            lv == lines_spec(content@),
            ru@ == "RU"@,
            ipv4@ == "ipv4"@,
            string_views(out@) == ru_entries(lv.take(i as int)),
        decreases ls.len() - i,
    {
        assert(lv.take(i + 1).drop_last() == lv.take(i as int));
        assert(lv.take(i + 1).last() == ls[i as int]@);
        let parts = split_chars(&ls[i], '|');
        let ghost pv = views(parts@);
        let ghost before = string_views(out@);
        if parts.len() >= 6 && chars_eq(&parts[1], &ru) && chars_eq(&parts[2], &ipv4) {
            assert(pv[1] == parts[1]@ && pv[2] == parts[2]@);
            match parse_unsigned(&parts[4], 0xFFFF_FFFF) {
                Some(count) => {
                    assert(pv[4] == parts[4]@ && pv[3] == parts[3]@);
                    let prefix = count_to_prefix(count as u32);
                    let digits = dec_string(prefix as u64);
                    let mut entry = String::new();
                    append_chars(&mut entry, &parts[3]);
                    entry.push('/');
                    append_chars(&mut entry, &digits);
                    assert(entry@ =~= parts[3]@ + seq!['/'] + dec_chars(
                        count_to_prefix_spec(count as u32) as nat,
                    ));
                    out.push(entry);
                    assert(string_views(out@) =~= before.push(entry@));
                },
                None => {
                    assert(pv[4] == parts[4]@);
                },
            }
        } else {
            assert(parts.len() >= 6 ==> pv[1] == parts[1]@ && pv[2] == parts[2]@);
        }
        i = i + 1;
    }
    assert(lv.take(ls.len() as int) == lv);
    out
}

/// `~/.rubypass/ru_subnets.txt` under the given home directory.
pub fn subnet_file(home: &str, sep: char) -> (r: String)
    ensures
        r@ == subnet_file_spec(home@, sep),
{
    let dir = data_dir(home, sep);
    join_path(dir.as_str(), "ru_subnets.txt", sep)
}

/// The text written to the subnet file: one CIDR per line.
pub fn subnet_file_text(subnets: &[String]) -> (r: String)
    ensures
        r@ == join_spec(string_views(subnets@), '\n'),
{
    join_strings(subnets, '\n')
}

/// What a download turns into: the number of networks found and the text
/// to store, or an error when the statistics hold no Russian network.
pub fn prepare_download(text: &str) -> (r: Result<(usize, String), String>)
    ensures
        match r {
            Ok((n, file)) => {
                &&& n == parse_ru_subnets_spec(text@).len()
                &&& n > 0
                &&& file@ == join_spec(parse_ru_subnets_spec(text@), '\n')
            },
            Err(e) => {
                &&& parse_ru_subnets_spec(text@).len() == 0
                &&& e@ == "Не найдено ни одной российской подсети"@
            },
        },
{
    let subnets = parse_ru_subnets(text);
    let count = subnets.len();
    if count == 0 {
        return Err("Не найдено ни одной российской подсети".to_owned());
    }
    let file = subnet_file_text(&subnets);
    Ok((count, file))
}

/// Reads the stored list: `None` when the file does not exist, else what
/// reading it gave.  The list is the file's non-empty lines.
pub fn load_subnets(file: Option<Result<String, String>>) -> (r: Result<Vec<String>, String>)
    ensures
        match file {
            None => r matches Err(e) && e@ == "Список подсетей не загружен"@,
            Some(Err(e)) => r matches Err(e2) && e2@ == e@,
            Some(Ok(content)) => r matches Ok(v) && string_views(v@) == nonempty_lines_spec(
                content@,
            ),
        },
{
    match file {
        None => Err("Список подсетей не загружен".to_owned()),
        Some(Err(e)) => Err(e),
        Some(Ok(content)) => Ok(nonempty_lines(content.as_str())),
    }
}

} // verus!
