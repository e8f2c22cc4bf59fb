use vstd::prelude::*;

verus! {

/// Horizontal whitespace that separates tokens (a stray carriage return
/// before a line break counts too).
pub open spec fn is_space(c: char) -> bool {
    c == ' ' || c == '\t' || c == '\r'
}

/// Executable whitespace test.
pub fn is_space_char(c: char) -> (r: bool)
    ensures
        r == is_space(c),
{
    c == ' ' || c == '\t' || c == '\r'
}

/// The lines of a text: the segments between `'\n'` characters. A text with
/// no `'\n'` is one line; a trailing `'\n'` yields a final empty line.
pub open spec fn split_lines(s: Seq<char>) -> Seq<Seq<char>>
    decreases s.len(),
{
    if s.len() == 0 {
        seq![Seq::<char>::empty()]
    } else if s.last() == '\n' {
        split_lines(s.drop_last()).push(Seq::<char>::empty())
    } else {
        let r = split_lines(s.drop_last());
        r.update(r.len() - 1, r.last().push(s.last()))
    }
}

pub proof fn lemma_split_lines_len(s: Seq<char>)
    ensures
        split_lines(s).len() >= 1,
    decreases s.len(),
{
    if s.len() > 0 {
        lemma_split_lines_len(s.drop_last());
    }
}

/// Split a text into its lines.
pub fn split_lines_exec(input: &str) -> (r: Vec<Vec<char>>)
    ensures
        r@.map_values(|l: Vec<char>| l@) == split_lines(input@),
{
    let n = input.unicode_len();
    let mut done: Vec<Vec<char>> = Vec::new();
    let mut cur: Vec<char> = Vec::new();
    let mut i: usize = 0;
    proof {
        assert(input@.take(0) =~= Seq::<char>::empty());
        assert(done@.map_values(|l: Vec<char>| l@).push(cur@) =~= split_lines(input@.take(0)));
    }
    while i < n
        invariant
            n == input@.len(),
            i <= n,
            done@.map_values(|l: Vec<char>| l@).push(cur@) == split_lines(input@.take(i as int)),
        decreases n - i,
    {
        let c = input.get_char(i);
        proof {
            assert(input@.take(i + 1).drop_last() =~= input@.take(i as int));
            assert(input@.take(i + 1).last() == input@[i as int]);
        }
        let ghost pre = done@.map_values(|l: Vec<char>| l@);
        if c == '\n' {
            done.push(cur);
            cur = Vec::new();
            proof {
                assert(done@.map_values(|l: Vec<char>| l@) =~= pre.push(split_lines(
                    input@.take(i as int),
                ).last()));
                assert(done@.map_values(|l: Vec<char>| l@).push(cur@) =~= split_lines(
                    input@.take(i + 1),
                ));
            }
        } else {
            cur.push(c);
            proof {
                assert(done@.map_values(|l: Vec<char>| l@).push(cur@) =~= split_lines(
                    input@.take(i + 1),
                ));
            }
        }
        i = i + 1;
    }
    done.push(cur);
    proof {
        assert(input@.take(n as int) =~= input@);
        assert(done@.map_values(|l: Vec<char>| l@) =~= split_lines(input@));
    }
    done
}

/// The length of the maximal run of non-space characters at the front.
pub open spec fn tok_len(s: Seq<char>) -> nat
    decreases s.len(),
{
    if s.len() == 0 || is_space(s[0]) {
        0
    } else {
        1 + tok_len(s.drop_first())
    }
}

pub proof fn lemma_tok_len_le(s: Seq<char>)
    ensures
        tok_len(s) <= s.len(),
    decreases s.len(),
{
    if s.len() > 0 && !is_space(s[0]) {
        lemma_tok_len_le(s.drop_first());
    }
}

/// `tok_len` is the first space position (or the whole length).
pub proof fn lemma_tok_len_is(s: Seq<char>, m: int)
    requires
        0 <= m <= s.len(),
        forall|j: int| 0 <= j < m ==> !is_space(s[j]),
        m < s.len() ==> is_space(s[m]),
    ensures
        tok_len(s) == m,
    decreases s.len(),
{
    if s.len() == 0 || is_space(s[0]) {
    } else {
        assert(m >= 1);
        assert(forall|j: int| 0 <= j < m - 1 ==> s.drop_first()[j] == s[j + 1]);
        lemma_tok_len_is(s.drop_first(), m - 1);
    }
}

/// The whitespace-separated tokens of a line, in order.
pub open spec fn tokens(s: Seq<char>) -> Seq<Seq<char>>
    decreases s.len(),
    via tokens_dec
{
    if s.len() == 0 {
        Seq::<Seq<char>>::empty()
    } else if is_space(s[0]) {
        tokens(s.drop_first())
    } else {
        seq![s.take(tok_len(s) as int)] + tokens(s.skip(tok_len(s) as int))
    }
}

#[via_fn]
proof fn tokens_dec(s: Seq<char>) {
    if s.len() > 0 && !is_space(s[0]) {
        lemma_tok_len_le(s);
    }
}

/// Split a line into its whitespace-separated tokens.
pub fn tokens_exec(line: &Vec<char>) -> (r: Vec<Vec<char>>)
    ensures
        r@.map_values(|t: Vec<char>| t@) == tokens(line@),
{
    let n = line.len();
    let mut r: Vec<Vec<char>> = Vec::new();
    let mut i: usize = 0;
    proof {
        assert(line@.skip(0) =~= line@);
        assert(r@.map_values(|t: Vec<char>| t@) + tokens(line@.skip(0)) =~= tokens(line@));
    }
    while i < n
        invariant
            n == line@.len(),
            i <= n,
            r@.map_values(|t: Vec<char>| t@) + tokens(line@.skip(i as int)) == tokens(line@),
        decreases n - i,
    {
        if is_space_char(line[i]) {
            proof {
                assert(line@.skip(i as int).drop_first() =~= line@.skip(i + 1));
                assert(line@.skip(i as int)[0] == line@[i as int]);
            }
            i = i + 1;
        } else {
            let start = i;
            let mut tok: Vec<char> = Vec::new();
            while i < n && !is_space_char(line[i])
                invariant
                    n == line@.len(),
                    start <= i <= n,
                    tok@ == line@.subrange(start as int, i as int),
                    forall|j: int| start <= j < i ==> !is_space(line@[j]),
                    !is_space(line@[start as int]),
                decreases n - i,
            {
                tok.push(line[i]);
                proof {
                    assert(tok@ =~= line@.subrange(start as int, i + 1));
                }
                i = i + 1;
            }
            let ghost rest = line@.skip(start as int);
            proof {
                assert(forall|j: int| 0 <= j < i - start ==> rest[j] == line@[j + start]);
                lemma_tok_len_is(rest, i - start);
                assert(rest.take(i - start) =~= tok@);
                assert(rest.skip(i - start) =~= line@.skip(i as int));
                assert(tokens(rest) == seq![tok@] + tokens(line@.skip(i as int)));
            }
            let ghost pre = r@.map_values(|t: Vec<char>| t@);
            r.push(tok);
            proof {
                assert(r@.map_values(|t: Vec<char>| t@) =~= pre.push(rest.take(i - start)));
                assert(pre.push(rest.take(i - start)) + tokens(line@.skip(i as int)) =~= pre + (
                seq![rest.take(i - start)] + tokens(line@.skip(i as int))));
            }
        }
    }
    proof {
        assert(line@.skip(n as int) =~= Seq::<char>::empty());
        assert(r@.map_values(|t: Vec<char>| t@) =~= tokens(line@));
    }
    r
}

/// The value of one hexadecimal digit, upper or lower case.
pub open spec fn hex_digit_val(c: char) -> Option<nat> {
    let v = c as int;
    if '0' as int <= v <= '9' as int {
        Some((v - '0' as int) as nat)
    } else if 'a' as int <= v <= 'f' as int {
        Some((v - 'a' as int + 10) as nat)
    } else if 'A' as int <= v <= 'F' as int {
        Some((v - 'A' as int + 10) as nat)
    } else {
        None
    }
}

/// Executable hexadecimal digit value.
pub fn hex_digit(c: char) -> (r: Option<u8>)
    ensures
        match (r, hex_digit_val(c)) {
            (Some(d), Some(v)) => d == v && d < 16,
            (None, None) => true,
            _ => false,
        },
{
    let v = c as u32;
    if v >= '0' as u32 && v <= '9' as u32 {
        Some((v - '0' as u32) as u8)
    } else if v >= 'a' as u32 && v <= 'f' as u32 {
        Some((v - 'a' as u32 + 10) as u8)
    } else if v >= 'A' as u32 && v <= 'F' as u32 {
        Some((v - 'A' as u32 + 10) as u8)
    } else {
        None
    }
}

/// The number denoted by a run of hexadecimal digits (most significant
/// first); `None` if any character is not a digit. The empty run denotes 0.
pub open spec fn hex_val(s: Seq<char>) -> Option<nat>
    decreases s.len(),
{
    if s.len() == 0 {
        Some(0)
    } else {
        match (hex_val(s.drop_last()), hex_digit_val(s.last())) {
            (Some(v), Some(d)) => Some(16 * v + d),
            _ => None,
        }
    }
}

/// A failed prefix fails the whole run.
pub proof fn lemma_hex_val_none(s: Seq<char>, i: int)
    requires
        0 <= i <= s.len(),
        hex_val(s.take(i)) is None,
    ensures
        hex_val(s) is None,
    decreases s.len() - i,
{
    if i == s.len() {
        assert(s.take(i) =~= s);
    } else {
        assert(s.take(i + 1).drop_last() =~= s.take(i));
        lemma_hex_val_none(s, i + 1);
    }
}

/// The value of a longer run never shrinks.
pub proof fn lemma_hex_val_grows(s: Seq<char>, i: int, v: nat)
    requires
        0 <= i <= s.len(),
        hex_val(s.take(i)) == Some(v),
    ensures
        hex_val(s) is None || hex_val(s)->Some_0 >= v,
    decreases s.len() - i,
{
    if i == s.len() {
        assert(s.take(i) =~= s);
    } else {
        assert(s.take(i + 1).drop_last() =~= s.take(i));
        match hex_digit_val(s.take(i + 1).last()) {
            Some(d) => {
                lemma_hex_val_grows(s, i + 1, (16 * v + d) as nat);
            },
            None => {
                lemma_hex_val_none(s, i + 1);
            },
        }
    }
}

/// A token read as a hexadecimal 64-bit number, as the standard parser
/// reads it: an optional leading `'+'`, then one or more hex digits, value
/// at most `u64::MAX`; anything else is `None`.
pub open spec fn hex_u64(s: Seq<char>) -> Option<u64> {
    let body = if s.len() > 0 && s[0] == '+' {
        s.drop_first()
    } else {
        s
    };
    if body.len() == 0 {
        None
    } else {
        match hex_val(body) {
            Some(v) => if v <= u64::MAX {
                Some(v as u64)
            } else {
                None
            },
            None => None,
        }
    }
}

/// A token read as a hexadecimal 32-bit number: as `hex_u64`, further
/// bounded by `u32::MAX`.
pub open spec fn hex_u32(s: Seq<char>) -> Option<u32> {
    match hex_u64(s) {
        Some(v) => if v <= u32::MAX {
            Some(v as u32)
        } else {
            None
        },
        None => None,
    }
}

/// Parse a token as a hexadecimal 64-bit number.
pub fn parse_hex_u64(tok: &Vec<char>) -> (r: Option<u64>)
    ensures
        r == hex_u64(tok@),
{
    let start: usize = if tok.len() > 0 && tok[0] == '+' {
        1
    } else {
        0
    };
    let ghost body = if start == 1 {
        tok@.drop_first()
    } else {
        tok@
    };
    proof {
        assert(forall|j: int| 0 <= j < body.len() ==> body[j] == tok@[j + start]);
    }
    if tok.len() == start {
        return None;
    }
    let mut acc: u64 = 0;
    let mut i = start;
    proof {
        assert(body.take(0) =~= Seq::<char>::empty());
    }
    while i < tok.len()
        invariant
            start <= i <= tok@.len(),
            start == (if tok@.len() > 0 && tok@[0] == '+' {
                1int
            } else {
                0int
            }),
            body == (if start == 1 {
                tok@.drop_first()
            } else {
                tok@
            }),
            body.len() >= 1,
            body.len() == tok@.len() - start,
            forall|j: int| 0 <= j < body.len() ==> body[j] == tok@[j + start],
            hex_val(body.take(i - start)) == Some(acc as nat),
        decreases tok@.len() - i,
    {
        proof {
            assert(body.take(i - start + 1).drop_last() =~= body.take(i - start));
            assert(body.take(i - start + 1).last() == body[i - start]);
        }
        match hex_digit(tok[i]) {
            None => {
                proof {
                    assert(hex_val(body.take(i - start + 1)) is None);
                    lemma_hex_val_none(body, i - start + 1);
                }
                return None;
            },
            Some(d) => {
                let dd = d as u64;
                if acc > (u64::MAX - dd) / 16 {
                    proof {
                        vstd::arithmetic::div_mod::lemma_fundamental_div_mod(
                            (u64::MAX - dd) as int,
                            16,
                        );
                        assert(16 * (acc as int) + dd > u64::MAX);
                        assert(hex_val(body.take(i - start + 1)) == Some(
                            (16 * (acc as nat) + dd) as nat,
                        ));
                        lemma_hex_val_grows(body, i - start + 1, (16 * (acc as nat) + dd) as nat);
                        assert(body.take(body.len() as int) =~= body);
                    }
                    return None;
                }
                proof {
                    vstd::arithmetic::div_mod::lemma_fundamental_div_mod((u64::MAX - dd) as int, 16);
                    assert(16 * (acc as int) + dd <= u64::MAX);
                }
                acc = acc * 16 + dd;
            },
        }
        i = i + 1;
    }
    proof {
        assert(body.take(i - start) =~= body);
    }
    Some(acc)
}

/// Parse a token as a hexadecimal 32-bit number.
pub fn parse_hex_u32(tok: &Vec<char>) -> (r: Option<u32>)
    ensures
        r == hex_u32(tok@),
{
    match parse_hex_u64(tok) {
        Some(v) => if v <= 0xFFFF_FFFFu64 {
            Some(v as u32)
        } else {
            None
        },
        None => None,
    }
}

/// Lexicographic order on character sequences, by code point.
pub open spec fn lex_le(a: Seq<char>, b: Seq<char>) -> bool
    decreases a.len(),
{
    if a.len() == 0 {
        true
    } else if b.len() == 0 {
        false
    } else if a[0] == b[0] {
        lex_le(a.drop_first(), b.drop_first())
    } else {
        (a[0] as int) < (b[0] as int)
    }
}

/// The order is total.
pub proof fn lemma_lex_le_total(a: Seq<char>, b: Seq<char>)
    ensures
        lex_le(a, b) || lex_le(b, a),
    decreases a.len(),
{
    if a.len() > 0 && b.len() > 0 && a[0] == b[0] {
        lemma_lex_le_total(a.drop_first(), b.drop_first());
    }
}

/// The order is transitive.
pub proof fn lemma_lex_le_trans(a: Seq<char>, b: Seq<char>, c: Seq<char>)
    requires
        lex_le(a, b),
        lex_le(b, c),
    ensures
        lex_le(a, c),
    decreases a.len(),
{
    if a.len() == 0 || b.len() == 0 || c.len() == 0 {
    } else if a[0] == b[0] && b[0] == c[0] {
        lemma_lex_le_trans(a.drop_first(), b.drop_first(), c.drop_first());
    }
}

/// Compare two strings lexicographically by code point.
pub fn str_le(a: &str, b: &str) -> (r: bool)
    ensures
        r == lex_le(a@, b@),
{
    let an = a.unicode_len();
    let bn = b.unicode_len();
    let mut i: usize = 0;
    proof {
        assert(a@.skip(0) =~= a@);
        assert(b@.skip(0) =~= b@);
    }
    loop
        invariant
            an == a@.len(),
            bn == b@.len(),
            i <= an,
            i <= bn,
            forall|j: int| 0 <= j < i ==> a@[j] == b@[j],
            lex_le(a@, b@) == lex_le(a@.skip(i as int), b@.skip(i as int)),
        decreases an - i,
    {
        if i >= an {
            proof {
                assert(a@.skip(i as int).len() == 0);
            }
            return true;
        }
        if i >= bn {
            proof {
                assert(b@.skip(i as int).len() == 0 && a@.skip(i as int).len() > 0);
            }
            return false;
        }
        let ca = a.get_char(i);
        let cb = b.get_char(i);
        proof {
            assert(a@.skip(i as int)[0] == a@[i as int]);
            assert(b@.skip(i as int)[0] == b@[i as int]);
            assert(a@.skip(i as int).drop_first() =~= a@.skip(i + 1));
            assert(b@.skip(i as int).drop_first() =~= b@.skip(i + 1));
        }
        if ca != cb {
            return (ca as u32) < (cb as u32);
        }
        i = i + 1;
    }
}

/// `needle` occurs as a contiguous run inside `hay`.
pub open spec fn spec_contains(hay: Seq<char>, needle: Seq<char>) -> bool {
    exists|k: int|
        0 <= k <= hay.len() - needle.len() && #[trigger] hay.subrange(k, k + needle.len())
            == needle
}

/// Substring search by scanning every start position.
pub fn str_contains(hay: &str, needle: &str) -> (r: bool)
    ensures
        r == spec_contains(hay@, needle@),
{
    let hn = hay.unicode_len();
    let nn = needle.unicode_len();
    if nn > hn {
        proof {
            assert(!spec_contains(hay@, needle@));
        }
        return false;
    }
    if nn == 0 {
        proof {
            assert(hay@.subrange(0, 0 + needle@.len() as int) =~= needle@);
            assert(spec_contains(hay@, needle@));
        }
        return true;
    }
    let mut k: usize = 0;
    while k <= hn - nn
        invariant
            hn == hay@.len(),
            nn == needle@.len(),
            nn <= hn,
            nn >= 1,
            k <= hn - nn + 1,
            forall|kk: int|
                0 <= kk < k ==> #[trigger] hay@.subrange(kk, kk + needle@.len()) != needle@,
        decreases (hn - nn + 1) - k,
    {
        let mut m: usize = 0;
        let mut found = true;
        while m < nn
            invariant
                hn == hay@.len(),
                nn == needle@.len(),
                k + nn <= hn,
                m <= nn,
                found ==> forall|j: int| 0 <= j < m ==> hay@[k + j] == needle@[j],
                !found ==> hay@.subrange(k as int, k + needle@.len()) != needle@,
            ensures
                found ==> forall|j: int| 0 <= j < nn ==> hay@[k + j] == needle@[j],
                !found ==> hay@.subrange(k as int, k + needle@.len()) != needle@,
            decreases nn - m,
        {
            if hay.get_char(k + m) != needle.get_char(m) {
                proof {
                    assert(hay@.subrange(k as int, k + needle@.len())[m as int] == hay@[k + m]);
                }
                found = false;
                break ;
            }
            m = m + 1;
        }
        if found {
            proof {
                assert forall|j: int| 0 <= j < needle@.len() implies #[trigger] hay@.subrange(
                    k as int,
                    k + needle@.len(),
                )[j] == needle@[j] by {
                    assert(hay@[k + j] == needle@[j]);
                }
                assert(hay@.subrange(k as int, k + needle@.len()) =~= needle@);
            }
            return true;
        }
        k = k + 1;
    }
    proof {
        assert forall|kk: int| 0 <= kk <= hay@.len() - needle@.len() implies #[trigger] hay@
            .subrange(kk, kk + needle@.len()) != needle@ by {
            assert(kk < k);
        }
    }
    false
}

/// The order is reflexive.
pub proof fn lemma_lex_le_refl(a: Seq<char>)
    ensures
        lex_le(a, a),
    decreases a.len(),
{
    if a.len() > 0 {
        lemma_lex_le_refl(a.drop_first());
    }
}

/// The order is antisymmetric.
pub proof fn lemma_lex_le_antisym(a: Seq<char>, b: Seq<char>)
    requires
        lex_le(a, b),
        lex_le(b, a),
    ensures
        a == b,
    decreases a.len(),
{
    if a.len() == 0 {
        assert(b.len() == 0);
        assert(a =~= b);
    } else if b.len() == 0 {
    } else if a[0] == b[0] {
        lemma_lex_le_antisym(a.drop_first(), b.drop_first());
        assert(a =~= seq![a[0]] + a.drop_first());
        assert(b =~= seq![b[0]] + b.drop_first());
    }
}

} // verus!
