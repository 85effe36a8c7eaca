//! The catalog's file format: a JSON array of backups, written and read by
//! this module, with the round trip proved — parsing what was written gives
//! back exactly the written catalog.

use crate::models::backup::{Backup, Kind, Location, Options};
use crate::paths::{dec_digits, digit};
use vstd::prelude::*;
use vstd::string::*;

verus! {

/// A character as it stands inside a JSON string: quotes and backslashes
/// are escaped with a backslash.
pub open spec fn esc_char(c: char) -> Seq<char> {
    if c == '"' {
        seq!['\\', '"']
    } else if c == '\\' {
        seq!['\\', '\\']
    } else {
        seq![c]
    }
}

/// A text as it stands inside a JSON string.
pub open spec fn esc(s: Seq<char>) -> Seq<char>
    decreases s.len(),
{
    if s.len() == 0 {
        Seq::empty()
    } else {
        esc_char(s.first()) + esc(s.drop_first())
    }
}

/// A JSON string: the escaped text between quotes.
pub open spec fn enc_string(s: Seq<char>) -> Seq<char> {
    seq!['"'] + esc(s) + seq!['"']
}

/// A backup kind as a JSON string.
pub open spec fn enc_kind(k: Kind) -> Seq<char> {
    match k {
        Kind::File => "\"File\""@,
        Kind::Directory => "\"Directory\""@,
    }
}

/// A location as a JSON object.
pub open spec fn enc_location(l: Location) -> Seq<char> {
    "{\"entity_name\":"@ + enc_string(l.entity_name@) + ",\"path\":"@ + enc_string(l.path@)
        + "}"@
}

/// The latest-run field: a decimal number or null.
pub open spec fn enc_latest(o: Option<u64>) -> Seq<char> {
    match o {
        None => "null"@,
        Some(n) => dec_digits(n as nat),
    }
}

/// The options field: an object with the one flag, or null.
pub open spec fn enc_options(o: Option<Options>) -> Seq<char> {
    match o {
        None => "null"@,
        Some(op) => if op.use_client_directory {
            "{\"use_client_directory\":true}"@
        } else {
            "{\"use_client_directory\":false}"@
        },
    }
}

/// A backup object's opening: the kind and the client location.
pub open spec fn enc_backup_lead(b: Backup) -> Seq<char> {
    "{\"kind\":"@ + enc_kind(b.kind) + ",\"client_location\":"@ + enc_location(b.client_location)
}

/// The opening followed by the server location.
pub open spec fn enc_backup_front(b: Backup) -> Seq<char> {
    enc_backup_lead(b) + ",\"server_location\":"@ + enc_location(b.server_location)
}

/// Everything up to and including the latest run.
pub open spec fn enc_backup_head(b: Backup) -> Seq<char> {
    enc_backup_front(b) + ",\"latest_run\":"@ + enc_latest(b.latest_run)
}

/// A backup as a JSON object.
pub open spec fn enc_backup(b: Backup) -> Seq<char> {
    enc_backup_head(b) + ",\"options\":"@ + enc_options(b.options) + "}"@
}

/// The backups of a catalog, joined by commas.
pub open spec fn enc_items(bs: Seq<Backup>) -> Seq<char>
    decreases bs.len(),
{
    if bs.len() == 0 {
        Seq::empty()
    } else if bs.len() == 1 {
        enc_backup(bs[0])
    } else {
        enc_backup(bs.first()) + seq![','] + enc_items(bs.drop_first())
    }
}

/// A catalog as a JSON array.
pub open spec fn enc_catalog(bs: Seq<Backup>) -> Seq<char> {
    seq!['['] + enc_items(bs) + seq![']']
}

/// What parsing recovers of a backup: its fields, with texts as character
/// sequences.
pub ghost struct BackupData {
    pub kind: Kind,
    pub client_entity: Seq<char>,
    pub client_path: Seq<char>,
    pub server_entity: Seq<char>,
    pub server_path: Seq<char>,
    pub latest_run: Option<u64>,
    pub options: Option<Options>,
}

/// The parsed view of a backup.
pub open spec fn backup_data_of(b: Backup) -> BackupData {
    BackupData {
        kind: b.kind,
        client_entity: b.client_location.entity_name@,
        client_path: b.client_location.path@,
        server_entity: b.server_location.entity_name@,
        server_path: b.server_location.path@,
        latest_run: b.latest_run,
        options: b.options,
    }
}

/// Consumes an expected literal, yielding the next position.
pub open spec fn expect(s: Seq<char>, i: int, lit: Seq<char>) -> Option<int> {
    if 0 <= i && i + lit.len() <= s.len() && s.subrange(i, i + lit.len() as int) == lit {
        Some(i + lit.len() as int)
    } else {
        None
    }
}

/// Scans a JSON string's payload up to its closing quote, undoing the
/// escapes, from position `i` just past the opening quote.
pub open spec fn scan_string(s: Seq<char>, i: int) -> Option<(Seq<char>, int)>
    decreases s.len() - i,
{
    if !(0 <= i < s.len()) {
        None
    } else if s[i] == '"' {
        Some((Seq::empty(), i + 1))
    } else if s[i] == '\\' {
        if i + 1 < s.len() {
            match scan_string(s, i + 2) {
                Some(p) => Some((seq![s[i + 1]] + p.0, p.1)),
                None => None,
            }
        } else {
            None
        }
    } else {
        match scan_string(s, i + 1) {
            Some(p) => Some((seq![s[i]] + p.0, p.1)),
            None => None,
        }
    }
}

/// A JSON string: an opening quote, then the scanned payload.
pub open spec fn parse_string(s: Seq<char>, i: int) -> Option<(Seq<char>, int)> {
    match expect(s, i, seq!['"']) {
        Some(j) => scan_string(s, j),
        None => None,
    }
}

/// A backup kind.
pub open spec fn parse_kind(s: Seq<char>, i: int) -> Option<(Kind, int)> {
    match expect(s, i, "\"File\""@) {
        Some(j) => Some((Kind::File, j)),
        None => match expect(s, i, "\"Directory\""@) {
            Some(j) => Some((Kind::Directory, j)),
            None => None,
        },
    }
}

pub open spec fn is_digit(c: char) -> bool {
    '0' <= c <= '9'
}

/// The maximal run of digits from `i`, with the next position.
pub open spec fn scan_digits(s: Seq<char>, i: int) -> (Seq<char>, int)
    decreases s.len() - i,
{
    if 0 <= i < s.len() && is_digit(s[i]) {
        let p = scan_digits(s, i + 1);
        (seq![s[i]] + p.0, p.1)
    } else {
        (Seq::empty(), i)
    }
}

/// The numeric value of a digit character; ten for anything else.
pub open spec fn digit_val(c: char) -> nat {
    if c == '0' {
        0
    } else if c == '1' {
        1
    } else if c == '2' {
        2
    } else if c == '3' {
        3
    } else if c == '4' {
        4
    } else if c == '5' {
        5
    } else if c == '6' {
        6
    } else if c == '7' {
        7
    } else if c == '8' {
        8
    } else if c == '9' {
        9
    } else {
        10
    }
}

/// The value of a digit run, most significant first.
pub open spec fn dec_value(ds: Seq<char>) -> nat
    decreases ds.len(),
{
    if ds.len() == 0 {
        0
    } else {
        dec_value(ds.drop_last()) * 10 + digit_val(ds.last())
    }
}

/// The latest-run field: null, or a digit run whose value fits.
pub open spec fn parse_latest(s: Seq<char>, i: int) -> Option<(Option<u64>, int)> {
    match expect(s, i, "null"@) {
        Some(j) => Some((Option::<u64>::None, j)),
        None => {
            let p = scan_digits(s, i);
            if p.0.len() >= 1 && dec_value(p.0) <= u64::MAX {
                Some((Some(dec_value(p.0) as u64), p.1))
            } else {
                None
            }
        },
    }
}

/// The options field: null, or the object with the one flag.
pub open spec fn parse_options(s: Seq<char>, i: int) -> Option<(Option<Options>, int)> {
    match expect(s, i, "null"@) {
        Some(j) => Some((Option::<Options>::None, j)),
        None => match expect(s, i, "{\"use_client_directory\":true}"@) {
            Some(j) => Some((Some(Options { use_client_directory: true }), j)),
            None => match expect(s, i, "{\"use_client_directory\":false}"@) {
                Some(j) => Some((Some(Options { use_client_directory: false }), j)),
                None => None,
            },
        },
    }
}

/// A location object: entity name, then path.
pub open spec fn parse_location(s: Seq<char>, i: int) -> Option<((Seq<char>, Seq<char>), int)> {
    match expect(s, i, "{\"entity_name\":"@) {
        None => None,
        Some(j1) => match parse_string(s, j1) {
            None => None,
            Some((entity, j2)) => match expect(s, j2, ",\"path\":"@) {
                None => None,
                Some(j3) => match parse_string(s, j3) {
                    None => None,
                    Some((path, j4)) => match expect(s, j4, "}"@) {
                        None => None,
                        Some(j5) => Some(((entity, path), j5)),
                    },
                },
            },
        },
    }
}

/// A backup object: kind, the two locations, the latest run, the options.
pub open spec fn parse_backup(s: Seq<char>, i: int) -> Option<(BackupData, int)> {
    match expect(s, i, "{\"kind\":"@) {
        None => None,
        Some(j1) => match parse_kind(s, j1) {
            None => None,
            Some((kind, j2)) => match expect(s, j2, ",\"client_location\":"@) {
                None => None,
                Some(j3) => match parse_location(s, j3) {
                    None => None,
                    Some((client, j4)) => match expect(s, j4, ",\"server_location\":"@) {
                        None => None,
                        Some(j5) => match parse_location(s, j5) {
                            None => None,
                            Some((server, j6)) => match expect(s, j6, ",\"latest_run\":"@) {
                                None => None,
                                Some(j7) => match parse_latest(s, j7) {
                                    None => None,
                                    Some((latest_run, j8)) => match expect(
                                        s,
                                        j8,
                                        ",\"options\":"@,
                                    ) {
                                        None => None,
                                        Some(j9) => match parse_options(s, j9) {
                                            None => None,
                                            Some((options, j10)) => match expect(s, j10, "}"@) {
                                                None => None,
                                                Some(j11) => Some(
                                                    (
                                                        BackupData {
                                                            kind,
                                                            client_entity: client.0,
                                                            client_path: client.1,
                                                            server_entity: server.0,
                                                            server_path: server.1,
                                                            latest_run,
                                                            options,
                                                        },
                                                        j11,
                                                    ),
                                                ),
                                            },
                                        },
                                    },
                                },
                            },
                        },
                    },
                },
            },
        },
    }
}

/// A comma-separated run of backups; the fuel bounds the recursion and any
/// value at least the number of items suffices.
pub open spec fn parse_items(s: Seq<char>, i: int, fuel: nat) -> Option<(Seq<BackupData>, int)>
    decreases fuel,
{
    if fuel == 0 {
        None
    } else {
        match parse_backup(s, i) {
            None => None,
            Some((b, j)) => match expect(s, j, seq![',']) {
                Some(k) => match parse_items(s, k, (fuel - 1) as nat) {
                    None => None,
                    Some((rest, m)) => Some((seq![b] + rest, m)),
                },
                None => Some((seq![b], j)),
            },
        }
    }
}

/// Splitting a suffix: when the suffix of `s` at `i` is `a + b`, then `a`
/// sits at `i` and `b` is the suffix at `i + a.len()`.
proof fn lemma_tail_after(s: Seq<char>, i: int, a: Seq<char>, b: Seq<char>)
    requires
        0 <= i <= s.len(),
        s.subrange(i, s.len() as int) == a + b,
    ensures
        i + a.len() + b.len() == s.len(),
        s.subrange(i, i + a.len() as int) == a,
        s.subrange(i + a.len(), s.len() as int) == b,
        expect(s, i, a) == Some(i + a.len() as int),
{
    assert((a + b).len() == a.len() + b.len());
    assert(s.subrange(i, s.len() as int).len() == s.len() - i);
    assert(s.subrange(i, i + a.len() as int) =~= a) by {
        assert forall|m: int| 0 <= m < a.len() implies s.subrange(i, i + a.len() as int)[m]
            == a[m] by {
            assert(s.subrange(i, s.len() as int)[m] == (a + b)[m]);
        }
    }
    assert(s.subrange(i + a.len(), s.len() as int) =~= b) by {
        assert forall|m: int| 0 <= m < b.len() implies s.subrange(
            i + a.len(),
            s.len() as int,
        )[m] == b[m] by {
            assert(0 <= a.len() + m < s.len() - i);
            assert(s.subrange(i, s.len() as int)[a.len() + m] == (a + b)[a.len() + m]);
            assert((a + b)[a.len() + m] == b[m]);
            assert(s.subrange(i, s.len() as int)[a.len() + m] == s[i + a.len() + m]);
            assert(s.subrange(i + a.len(), s.len() as int)[m] == s[i + a.len() + m]);
        }
    }
}

/// Scanning the escaped form of a payload, followed by a closing quote,
/// recovers the payload and stops just past the quote.
proof fn lemma_scan_string(s: Seq<char>, i: int, payload: Seq<char>, tail: Seq<char>)
    requires
        0 <= i <= s.len(),
        s.subrange(i, s.len() as int) == esc(payload) + seq!['"'] + tail,
    ensures
        scan_string(s, i) == Some((payload, i + esc(payload).len() + 1)),
    decreases payload.len(),
{
    assert(esc(payload) + seq!['"'] + tail =~= esc(payload) + (seq!['"'] + tail));
    lemma_tail_after(s, i, esc(payload), seq!['"'] + tail);
    if payload.len() == 0 {
        assert(esc(payload) =~= Seq::<char>::empty());
        assert(s.subrange(i, s.len() as int)[0] == (seq!['"'] + tail)[0]);
        assert(s[i] == '"');
    } else {
        let c = payload.first();
        let rest = payload.drop_first();
        assert(esc(payload) == esc_char(c) + esc(rest));
        assert(esc(payload) + (seq!['"'] + tail) =~= esc_char(c) + (esc(rest) + seq!['"']
            + tail));
        lemma_tail_after(s, i, esc_char(c), esc(rest) + seq!['"'] + tail);
        if c == '"' || c == '\\' {
            assert(esc_char(c) =~= seq!['\\', c]);
            assert(s.subrange(i, i + 2)[0] == '\\');
            assert(s.subrange(i, i + 2)[1] == c);
            assert(s[i] == '\\');
            assert(s[i + 1] == c);
            lemma_scan_string(s, i + 2, rest, tail);
            assert(seq![s[i + 1]] + rest =~= payload);
        } else {
            assert(esc_char(c) =~= seq![c]);
            assert(s.subrange(i, i + 1)[0] == c);
            assert(s[i] == c);
            lemma_scan_string(s, i + 1, rest, tail);
            assert(seq![s[i]] + rest =~= payload);
        }
    }
}

/// Parsing the encoding of a string, followed by anything, recovers the
/// payload and stops just past the closing quote.
proof fn lemma_parse_string(s: Seq<char>, i: int, payload: Seq<char>, tail: Seq<char>)
    requires
        0 <= i <= s.len(),
        s.subrange(i, s.len() as int) == enc_string(payload) + tail,
    ensures
        parse_string(s, i) == Some((payload, i + enc_string(payload).len())),
    decreases payload.len(),
{
    assert(enc_string(payload) + tail =~= seq!['"'] + (esc(payload) + seq!['"'] + tail));
    lemma_tail_after(s, i, seq!['"'], esc(payload) + seq!['"'] + tail);
    lemma_scan_string(s, i + 1, payload, tail);
    assert(enc_string(payload).len() == esc(payload).len() + 2);
}

/// Decimal renderings are nonempty and hold digits only.
proof fn lemma_dec_digits_shape(n: nat)
    ensures
        dec_digits(n).len() >= 1,
        forall|m: int| 0 <= m < dec_digits(n).len() ==> is_digit(#[trigger] dec_digits(n)[m]),
    decreases n,
{
    if n < 10 {
        assert(is_digit(digit(n)));
        assert(dec_digits(n) =~= seq![digit(n)]);
    } else {
        lemma_dec_digits_shape(n / 10);
        assert(is_digit(digit(n % 10)));
    }
}

/// Reading back the decimal rendering of a number gives the number.
proof fn lemma_dec_value_of_digits(n: nat)
    ensures
        dec_value(dec_digits(n)) == n,
    decreases n,
{
    if n < 10 {
        assert(dec_digits(n) =~= seq![digit(n)]);
        assert(seq![digit(n)].drop_last() =~= Seq::<char>::empty());
        assert(dec_value(Seq::<char>::empty()) == 0);
        assert(dec_value(seq![digit(n)]) == digit_val(digit(n)));
        assert(digit_val(digit(n)) == n);
    } else {
        lemma_dec_value_of_digits(n / 10);
        assert(dec_digits(n).drop_last() =~= dec_digits(n / 10));
        assert(dec_digits(n).last() == digit(n % 10));
        assert(digit_val(digit(n % 10)) == n % 10);
        assert(n == (n / 10) * 10 + n % 10) by {
            vstd::arithmetic::div_mod::lemma_fundamental_div_mod(n as int, 10);
        }
    }
}

/// Scanning a run of digits followed by a non-digit recovers exactly the
/// run.
proof fn lemma_scan_digits(s: Seq<char>, i: int, ds: Seq<char>, tail: Seq<char>)
    requires
        0 <= i <= s.len(),
        s.subrange(i, s.len() as int) == ds + tail,
        forall|m: int| 0 <= m < ds.len() ==> is_digit(#[trigger] ds[m]),
        tail.len() >= 1,
        !is_digit(tail[0]),
    ensures
        scan_digits(s, i) == (ds, i + ds.len() as int),
    decreases ds.len(),
{
    lemma_tail_after(s, i, ds, tail);
    if ds.len() == 0 {
        assert(s.subrange(i, s.len() as int)[0] == tail[0]);
        assert(s[i] == tail[0]);
    } else {
        assert(ds + tail =~= seq![ds.first()] + (ds.drop_first() + tail));
        lemma_tail_after(s, i, seq![ds.first()], ds.drop_first() + tail);
        assert(s.subrange(i, i + 1)[0] == ds.first());
        assert(s[i] == ds.first());
        assert(is_digit(ds[0]));
        lemma_scan_digits(s, i + 1, ds.drop_first(), tail);
        assert(seq![s[i]] + ds.drop_first() =~= ds);
    }
}

/// Parsing the encoding of the latest-run field, followed by a comma,
/// recovers the field.
proof fn lemma_parse_latest(s: Seq<char>, i: int, o: Option<u64>, tail: Seq<char>)
    requires
        0 <= i <= s.len(),
        s.subrange(i, s.len() as int) == enc_latest(o) + tail,
        tail.len() >= 1,
        tail[0] == ',',
    ensures
        parse_latest(s, i) == Some((o, i + enc_latest(o).len())),
{
    reveal_strlit("null");
    lemma_tail_after(s, i, enc_latest(o), tail);
    match o {
        None => {
            assert(expect(s, i, "null"@) == Some(i + 4));
        },
        Some(n) => {
            lemma_dec_digits_shape(n as nat);
            lemma_dec_value_of_digits(n as nat);
            assert(s.subrange(i, i + enc_latest(o).len() as int)[0] == dec_digits(n as nat)[0]);
            assert(is_digit(s[i]));
            assert(s[i] != 'n');
            assert(expect(s, i, "null"@) is None) by {
                if expect(s, i, "null"@) is Some {
                    assert(s.subrange(i, i + 4)[0] == "null"@[0]);
                }
            }
            assert(!is_digit(','));
            lemma_scan_digits(s, i, dec_digits(n as nat), tail);
        },
    }
}

/// Parsing the encoding of a kind, followed by a comma, recovers the kind.
proof fn lemma_parse_kind(s: Seq<char>, i: int, k: Kind, tail: Seq<char>)
    requires
        0 <= i <= s.len(),
        s.subrange(i, s.len() as int) == enc_kind(k) + tail,
    ensures
        parse_kind(s, i) == Some((k, i + enc_kind(k).len())),
{
    reveal_strlit("\"File\"");
    reveal_strlit("\"Directory\"");
    lemma_tail_after(s, i, enc_kind(k), tail);
    match k {
        Kind::File => {
        },
        Kind::Directory => {
            assert(s.subrange(i, i + 11)[1] == "\"Directory\""@[1]);
            assert(s[i + 1] == 'D');
            assert(expect(s, i, "\"File\""@) is None) by {
                if expect(s, i, "\"File\""@) is Some {
                    assert(s.subrange(i, i + 6)[1] == "\"File\""@[1]);
                }
            }
        },
    }
}

/// Parsing the encoding of the options field, followed by a closing brace,
/// recovers the field.
proof fn lemma_parse_options(s: Seq<char>, i: int, o: Option<Options>, tail: Seq<char>)
    requires
        0 <= i <= s.len(),
        s.subrange(i, s.len() as int) == enc_options(o) + tail,
    ensures
        parse_options(s, i) == Some((o, i + enc_options(o).len())),
{
    reveal_strlit("null");
    reveal_strlit("{\"use_client_directory\":true}");
    reveal_strlit("{\"use_client_directory\":false}");
    lemma_tail_after(s, i, enc_options(o), tail);
    match o {
        None => {
        },
        Some(op) => {
            assert(s.subrange(i, i + enc_options(o).len() as int)[0] == enc_options(o)[0]);
            assert(s[i] == '{');
            assert(expect(s, i, "null"@) is None) by {
                if expect(s, i, "null"@) is Some {
                    assert(s.subrange(i, i + 4)[0] == "null"@[0]);
                }
            }
            if !op.use_client_directory {
                assert(s.subrange(i, i + 30)[24] == enc_options(o)[24]);
                assert(s[i + 24] == 'f');
                assert(expect(s, i, "{\"use_client_directory\":true}"@) is None) by {
                    if expect(s, i, "{\"use_client_directory\":true}"@) is Some {
                        assert(s.subrange(i, i + 29)[24] == "{\"use_client_directory\":true}"@[24]);
                    }
                }
            }
        },
    }
}

/// Parsing the encoding of a location, followed by anything, recovers the
/// names.
proof fn lemma_parse_location(s: Seq<char>, i: int, l: Location, tail: Seq<char>)
    requires
        0 <= i <= s.len(),
        s.subrange(i, s.len() as int) == enc_location(l) + tail,
    ensures
        parse_location(s, i) == Some(((l.entity_name@, l.path@), i + enc_location(l).len())),
{
    let lit1 = "{\"entity_name\":"@;
    let lit2 = ",\"path\":"@;
    let lit3 = "}"@;
    let en = l.entity_name@;
    let p = l.path@;
    assert(enc_location(l) + tail =~= lit1 + (enc_string(en) + (lit2 + (enc_string(p) + (lit3
        + tail)))));
    lemma_tail_after(s, i, lit1, enc_string(en) + (lit2 + (enc_string(p) + (lit3 + tail))));
    let j1 = i + lit1.len() as int;
    lemma_parse_string(s, j1, en, lit2 + (enc_string(p) + (lit3 + tail)));
    lemma_tail_after(s, j1, enc_string(en), lit2 + (enc_string(p) + (lit3 + tail)));
    let j2 = j1 + enc_string(en).len() as int;
    lemma_tail_after(s, j2, lit2, enc_string(p) + (lit3 + tail));
    let j3 = j2 + lit2.len() as int;
    lemma_parse_string(s, j3, p, lit3 + tail);
    lemma_tail_after(s, j3, enc_string(p), lit3 + tail);
    let j4 = j3 + enc_string(p).len() as int;
    lemma_tail_after(s, j4, lit3, tail);
    assert(enc_location(l).len() == lit1.len() + enc_string(en).len() + lit2.len() + enc_string(
        p,
    ).len() + lit3.len());
}

/// Parsing the encoding of a backup, followed by anything, recovers its
/// data.
#[verifier::rlimit(60)]
proof fn lemma_parse_backup(s: Seq<char>, i: int, b: Backup, tail: Seq<char>)
    requires
        0 <= i <= s.len(),
        s.subrange(i, s.len() as int) == enc_backup(b) + tail,
    ensures
        parse_backup(s, i) == Some((backup_data_of(b), i + enc_backup(b).len())),
{
    let lit1 = "{\"kind\":"@;
    let lit2 = ",\"client_location\":"@;
    let lit3 = ",\"server_location\":"@;
    let lit4 = ",\"latest_run\":"@;
    let lit5 = ",\"options\":"@;
    let lit6 = "}"@;
    let ek = enc_kind(b.kind);
    let ecl = enc_location(b.client_location);
    let esl = enc_location(b.server_location);
    let elr = enc_latest(b.latest_run);
    let eo = enc_options(b.options);
    assert(enc_backup(b) + tail =~= lit1 + (ek + (lit2 + (ecl + (lit3 + (esl + (lit4 + (elr + (
    lit5 + (eo + (lit6 + tail)))))))))));
    lemma_tail_after(s, i, lit1, ek + (lit2 + (ecl + (lit3 + (esl + (lit4 + (elr + (lit5 + (eo + (
    lit6 + tail))))))))));
    let j1 = i + lit1.len() as int;
    lemma_parse_kind(s, j1, b.kind, lit2 + (ecl + (lit3 + (esl + (lit4 + (elr + (lit5 + (eo + (
    lit6 + tail)))))))));
    lemma_tail_after(s, j1, ek, lit2 + (ecl + (lit3 + (esl + (lit4 + (elr + (lit5 + (eo + (lit6
        + tail)))))))));
    let j2 = j1 + ek.len() as int;
    lemma_tail_after(s, j2, lit2, ecl + (lit3 + (esl + (lit4 + (elr + (lit5 + (eo + (lit6
        + tail))))))));
    let j3 = j2 + lit2.len() as int;
    lemma_parse_location(s, j3, b.client_location, lit3 + (esl + (lit4 + (elr + (lit5 + (eo + (
    lit6 + tail)))))));
    lemma_tail_after(s, j3, ecl, lit3 + (esl + (lit4 + (elr + (lit5 + (eo + (lit6 + tail)))))));
    let j4 = j3 + ecl.len() as int;
    lemma_tail_after(s, j4, lit3, esl + (lit4 + (elr + (lit5 + (eo + (lit6 + tail))))));
    let j5 = j4 + lit3.len() as int;
    lemma_parse_location(s, j5, b.server_location, lit4 + (elr + (lit5 + (eo + (lit6 + tail)))));
    lemma_tail_after(s, j5, esl, lit4 + (elr + (lit5 + (eo + (lit6 + tail)))));
    let j6 = j5 + esl.len() as int;
    lemma_tail_after(s, j6, lit4, elr + (lit5 + (eo + (lit6 + tail))));
    let j7 = j6 + lit4.len() as int;
    reveal_strlit(",\"options\":");
    assert(lit5.len() >= 1 && lit5[0] == ',');
    assert((lit5 + (eo + (lit6 + tail))).len() >= 1);
    assert((lit5 + (eo + (lit6 + tail)))[0] == lit5[0]);
    lemma_parse_latest(s, j7, b.latest_run, lit5 + (eo + (lit6 + tail)));
    lemma_tail_after(s, j7, elr, lit5 + (eo + (lit6 + tail)));
    let j8 = j7 + elr.len() as int;
    lemma_tail_after(s, j8, lit5, eo + (lit6 + tail));
    let j9 = j8 + lit5.len() as int;
    lemma_parse_options(s, j9, b.options, lit6 + tail);
    lemma_tail_after(s, j9, eo, lit6 + tail);
    let j10 = j9 + eo.len() as int;
    lemma_tail_after(s, j10, lit6, tail);
    assert(enc_backup(b).len() == lit1.len() + ek.len() + lit2.len() + ecl.len() + lit3.len()
        + esl.len() + lit4.len() + elr.len() + lit5.len() + eo.len() + lit6.len());
}

/// The parsed view of a whole catalog.
pub open spec fn catalog_data_of(cat: Seq<Backup>) -> Seq<BackupData> {
    cat.map_values(|b: Backup| backup_data_of(b))
}

proof fn lemma_enc_backup_shape(b: Backup)
    ensures
        enc_backup(b).len() >= 1,
        enc_backup(b)[0] == '{',
{
    reveal_strlit("{\"kind\":");
    let lit1 = "{\"kind\":"@;
    assert(enc_backup(b).len() >= lit1.len());
    assert(enc_backup(b)[0] == lit1[0]);
}

proof fn lemma_enc_items_len(bs: Seq<Backup>)
    ensures
        enc_items(bs).len() >= bs.len(),
    decreases bs.len(),
{
    if bs.len() == 0 {
    } else if bs.len() == 1 {
        lemma_enc_backup_shape(bs[0]);
    } else {
        lemma_enc_backup_shape(bs.first());
        lemma_enc_items_len(bs.drop_first());
    }
}

/// Parsing the encoding of a nonempty run of backups, followed by anything
/// that is not a comma, recovers the run.
#[verifier::rlimit(60)]
proof fn lemma_parse_items(s: Seq<char>, i: int, cat: Seq<Backup>, tail: Seq<char>, fuel: nat)
    requires
        0 <= i <= s.len(),
        cat.len() >= 1,
        fuel >= cat.len(),
        s.subrange(i, s.len() as int) == enc_items(cat) + tail,
        tail.len() >= 1,
        tail[0] != ',',
    ensures
        parse_items(s, i, fuel) == Some((catalog_data_of(cat), i + enc_items(cat).len())),
    decreases cat.len(),
{
    if cat.len() == 1 {
        assert(enc_items(cat) == enc_backup(cat[0]));
        lemma_parse_backup(s, i, cat[0], tail);
        lemma_tail_after(s, i, enc_backup(cat[0]), tail);
        let j = i + enc_backup(cat[0]).len() as int;
        assert(expect(s, j, seq![',']) is None) by {
            if expect(s, j, seq![',']) is Some {
                assert(s.subrange(j, j + 1)[0] == seq![','][0]);
                assert(s.subrange(j, s.len() as int)[0] == tail[0]);
            }
        }
        assert(seq![backup_data_of(cat[0])] =~= catalog_data_of(cat));
    } else {
        let first = cat.first();
        let rest = cat.drop_first();
        assert(enc_items(cat) == enc_backup(first) + seq![','] + enc_items(rest));
        assert(enc_items(cat) + tail =~= enc_backup(first) + (seq![','] + (enc_items(rest)
            + tail)));
        lemma_parse_backup(s, i, first, seq![','] + (enc_items(rest) + tail));
        lemma_tail_after(s, i, enc_backup(first), seq![','] + (enc_items(rest) + tail));
        let j = i + enc_backup(first).len() as int;
        lemma_tail_after(s, j, seq![','], enc_items(rest) + tail);
        let k = j + 1;
        lemma_parse_items(s, k, rest, tail, (fuel - 1) as nat);
        assert(seq![backup_data_of(first)] + catalog_data_of(rest) =~= catalog_data_of(cat));
    }
}

/// The catalog's round trip: parsing the encoding of any catalog gives
/// back exactly that catalog.  Writing the backups file and reading it
/// back preserves the set of backups.
pub proof fn lemma_catalog_round_trip(cat: Seq<Backup>)
    ensures
        parse_catalog(enc_catalog(cat)) == Some(catalog_data_of(cat)),
{
    let s = enc_catalog(cat);
    assert(s.subrange(0, s.len() as int) =~= s);
    assert(s =~= seq!['['] + (enc_items(cat) + seq![']']));
    assert(s.subrange(0, s.len() as int) == seq!['['] + (enc_items(cat) + seq![']']));
    lemma_tail_after(s, 0, seq!['['], enc_items(cat) + seq![']']);
    if cat.len() == 0 {
        assert(enc_items(cat) + seq![']'] =~= seq![']'] + Seq::<char>::empty());
        lemma_tail_after(s, 1, seq![']'], Seq::<char>::empty());
        assert(expect(s, 1, seq![']']) == Some(2int));
        assert(s.len() == 2);
        assert(catalog_data_of(cat) =~= Seq::<BackupData>::empty());
    } else {
        lemma_enc_items_len(cat);
        lemma_enc_backup_shape(cat[0]);
        assert(enc_items(cat)[0] == enc_backup(cat[0])[0]) by {
            if cat.len() == 1 {
            } else {
                assert(enc_items(cat) == enc_backup(cat.first()) + seq![','] + enc_items(
                    cat.drop_first(),
                ));
                assert(enc_items(cat)[0] == (enc_backup(cat.first()) + seq![','])[0]);
            }
        }
        assert(s.subrange(1, s.len() as int)[0] == (enc_items(cat) + seq![']'])[0]);
        assert(s[1] == '{');
        assert(expect(s, 1, seq![']']) is None) by {
            if expect(s, 1, seq![']']) is Some {
                assert(s.subrange(1, 2)[0] == seq![']'][0]);
            }
        }
        lemma_parse_items(s, 1, cat, seq![']'], s.len() as nat);
        let j = 1 + enc_items(cat).len() as int;
        lemma_tail_after(s, 1, enc_items(cat), seq![']']);
        assert(s.subrange(j, s.len() as int) =~= seq![']'] + Seq::<char>::empty());
        lemma_tail_after(s, j, seq![']'], Seq::<char>::empty());
        assert(expect(s, j, seq![']']) == Some(j + 1));
        assert(j + 1 == s.len());
    }
}

proof fn lemma_esc_app(a: Seq<char>, b: Seq<char>)
    ensures
        esc(a + b) == esc(a) + esc(b),
    decreases a.len(),
{
    if a.len() == 0 {
        assert(a + b =~= b);
        assert(esc(a) + esc(b) =~= esc(b));
    } else {
        lemma_esc_app(a.drop_first(), b);
        assert((a + b).drop_first() =~= a.drop_first() + b);
        assert((a + b).first() == a.first());
        assert(esc(a + b) =~= esc_char(a.first()) + (esc(a.drop_first()) + esc(b)));
        assert(esc(a) + esc(b) =~= esc_char(a.first()) + (esc(a.drop_first()) + esc(b)));
    }
}

proof fn lemma_esc_one(c: char)
    ensures
        esc(seq![c]) == esc_char(c),
{
    reveal_with_fuel(esc, 2);
    assert(seq![c].drop_first() =~= Seq::<char>::empty());
    assert(esc(seq![c]) =~= esc_char(c) + Seq::<char>::empty());
    assert(esc_char(c) + Seq::<char>::empty() =~= esc_char(c));
}

/// Appends a JSON string — the text between quotes, quotes and backslashes
/// escaped — to the output.
fn push_json_string(out: &mut String, s: &String)
    ensures
        final(out)@ == old(out)@ + enc_string(s@),
{
    crate::paths::push_char(out, '"');
    let text: &str = s.as_str();
    let n: usize = text.unicode_len();
    let mut i: usize = 0;
    while i < n
        invariant
            text@ == s@,
            n == s@.len(),
            0 <= i <= n,
            out@ == old(out)@ + seq!['"'] + esc(s@.subrange(0, i as int)),
        decreases n - i,
    {
        let c: char = text.get_char(i);
        if c == '"' || c == '\\' {
            crate::paths::push_char(out, '\\');
            crate::paths::push_char(out, c);
        } else {
            crate::paths::push_char(out, c);
        }
        proof {
            let pre = s@.subrange(0, i as int);
            let one = seq![s@[i as int]];
            lemma_esc_app(pre, one);
            lemma_esc_one(s@[i as int]);
            assert(s@.subrange(0, i + 1) =~= pre + one);
            if c == '"' || c == '\\' {
                assert(out@ =~= old(out)@ + seq!['"'] + (esc(pre) + seq!['\\', c]));
                assert(esc_char(s@[i as int]) =~= seq!['\\', c]);
            } else {
                assert(out@ =~= old(out)@ + seq!['"'] + (esc(pre) + seq![c]));
                assert(esc_char(s@[i as int]) =~= seq![c]);
            }
        }
        i = i + 1;
    }
    crate::paths::push_char(out, '"');
    proof {
        assert(s@.subrange(0, n as int) =~= s@);
        assert(out@ =~= old(out)@ + enc_string(s@));
    }
}

/// Appends the JSON object of a location to the output.
#[verifier::spinoff_prover]
fn push_location_json(out: &mut String, l: &Location)
    ensures
        final(out)@ == old(out)@ + enc_location(*l),
{
    out.append("{\"entity_name\":");
    push_json_string(out, &l.entity_name);
    out.append(",\"path\":");
    push_json_string(out, &l.path);
    out.append("}");
    proof {
        assert(out@ =~= old(out)@ + enc_location(*l));
    }
}

/// Appends the JSON object of one backup to the output.
#[verifier::rlimit(100)]
#[verifier::spinoff_prover]
fn push_backup_json(out: &mut String, b: &Backup)
    ensures
        final(out)@ == old(out)@ + enc_backup(*b),
{
    out.append("{\"kind\":");
    match b.kind {
        Kind::File => out.append("\"File\""),
        Kind::Directory => out.append("\"Directory\""),
    }
    out.append(",\"client_location\":");
    push_location_json(out, &b.client_location);
    proof {
        assert(out@ =~= old(out)@ + enc_backup_lead(*b));
    }
    let ghost after_lead = out@;
    out.append(",\"server_location\":");
    push_location_json(out, &b.server_location);
    proof {
        assert(out@ =~= after_lead + ",\"server_location\":"@ + enc_location(
            b.server_location,
        ));
        assert(out@ =~= old(out)@ + enc_backup_front(*b));
    }
    let ghost after_front = out@;
    out.append(",\"latest_run\":");
    match b.latest_run {
        None => out.append("null"),
        Some(n) => crate::paths::push_u64_decimal(out, n),
    }
    proof {
        assert(out@ =~= after_front + ",\"latest_run\":"@ + enc_latest(b.latest_run));
        assert(out@ =~= old(out)@ + enc_backup_head(*b));
    }
    let ghost after_head = out@;
    out.append(",\"options\":");
    match &b.options {
        None => out.append("null"),
        Some(op) => {
            if op.use_client_directory {
                out.append("{\"use_client_directory\":true}");
            } else {
                out.append("{\"use_client_directory\":false}");
            }
        },
    }
    out.append("}");
    proof {
        assert(out@ =~= after_head + ",\"options\":"@ + enc_options(b.options) + "}"@);
        assert(out@ =~= old(out)@ + enc_backup(*b));
    }
}

proof fn lemma_enc_items_snoc(bs: Seq<Backup>, b: Backup)
    ensures
        enc_items(bs.push(b)) == if bs.len() == 0 {
            enc_backup(b)
        } else {
            enc_items(bs) + seq![','] + enc_backup(b)
        },
    decreases bs.len(),
{
    let whole = bs.push(b);
    if bs.len() == 0 {
        assert(whole.len() == 1);
        assert(whole[0] == b);
    } else {
        assert(whole.len() >= 2);
        assert(whole.first() == bs.first());
        assert(whole.drop_first() =~= bs.drop_first().push(b));
        lemma_enc_items_snoc(bs.drop_first(), b);
        if bs.len() == 1 {
            assert(bs.drop_first().len() == 0);
            assert(enc_items(whole) =~= enc_backup(bs[0]) + seq![','] + enc_backup(b));
            assert(enc_items(bs) + seq![','] + enc_backup(b) =~= enc_backup(bs[0]) + seq![',']
                + enc_backup(b));
        } else {
            assert(enc_items(whole) =~= enc_backup(bs.first()) + seq![','] + (enc_items(
                bs.drop_first(),
            ) + seq![','] + enc_backup(b)));
            assert(enc_items(bs) + seq![','] + enc_backup(b) =~= enc_backup(bs.first()) + seq![
                ','
            ] + (enc_items(bs.drop_first()) + seq![','] + enc_backup(b)));
        }
    }
}

/// The catalog as JSON text, as `enc_catalog` says; `parse_catalog` gives
/// the catalog back, as `lemma_catalog_round_trip` proves.
pub fn catalog_to_json(backups: &Vec<Backup>) -> (r: String)
    ensures
        r@ == enc_catalog(backups@),
{
    let mut out = String::new();
    crate::paths::push_char(&mut out, '[');
    let n: usize = backups.len();
    let mut i: usize = 0;
    while i < n
        invariant
            n == backups@.len(),
            0 <= i <= n,
            out@ == seq!['['] + enc_items(backups@.subrange(0, i as int)),
        decreases n - i,
    {
        if i > 0 {
            crate::paths::push_char(&mut out, ',');
        }
        push_backup_json(&mut out, &backups[i]);
        proof {
            let pre = backups@.subrange(0, i as int);
            lemma_enc_items_snoc(pre, backups@[i as int]);
            assert(backups@.subrange(0, i + 1) =~= pre.push(backups@[i as int]));
            if i > 0 {
                assert(out@ =~= seq!['['] + (enc_items(pre) + seq![','] + enc_backup(
                    backups@[i as int],
                )));
            } else {
                assert(pre.len() == 0);
                assert(enc_items(pre) =~= Seq::<char>::empty());
                assert(out@ =~= seq!['['] + enc_backup(backups@[i as int]));
                assert(seq!['['] + enc_backup(backups@[i as int]) =~= seq!['['] + enc_items(
                    pre.push(backups@[i as int]),
                ));
            }
        }
        i = i + 1;
    }
    crate::paths::push_char(&mut out, ']');
    proof {
        assert(backups@.subrange(0, n as int) =~= backups@);
        assert(out@ =~= enc_catalog(backups@));
    }
    out
}

/// Consumes an expected literal, as `expect` says.
fn expect_exec(text: &str, i: usize, lit: &str) -> (r: Option<usize>)
    ensures
        (r is Some) == (expect(text@, i as int, lit@) is Some),
        r matches Some(j) ==> expect(text@, i as int, lit@) == Some(j as int),
{
    let n: usize = text.unicode_len();
    let ln: usize = lit.unicode_len();
    if i > n || ln > n - i {
        return None;
    }
    let sub: &str = text.substring_char(i, i + ln);
    let matched: bool = String::from_str(sub).eq(&String::from_str(lit));
    if matched {
        Some(i + ln)
    } else {
        None
    }
}

/// Scans a JSON string's payload, as `scan_string` says.
fn scan_string_exec(text: &str, i: usize) -> (r: Option<(String, usize)>)
    ensures
        (r is Some) == (scan_string(text@, i as int) is Some),
        r matches Some(p) ==> scan_string(text@, i as int) == Some((p.0@, p.1 as int)),
    decreases text@.len() - i,
{
    let n: usize = text.unicode_len();
    if i >= n {
        return None;
    }
    let c: char = text.get_char(i);
    if c == '"' {
        return Some((String::new(), i + 1));
    }
    if c == '\\' {
        if i + 1 < n {
            match scan_string_exec(text, i + 2) {
                Some(p) => {
                    let mut out = String::new();
                    crate::paths::push_char(&mut out, text.get_char(i + 1));
                    out.append(p.0.as_str());
                    proof {
                        assert(out@ =~= seq![text@[i + 1]] + p.0@);
                    }
                    Some((out, p.1))
                },
                None => None,
            }
        } else {
            None
        }
    } else {
        match scan_string_exec(text, i + 1) {
            Some(p) => {
                let mut out = String::new();
                crate::paths::push_char(&mut out, c);
                out.append(p.0.as_str());
                proof {
                    assert(out@ =~= seq![text@[i as int]] + p.0@);
                }
                Some((out, p.1))
            },
            None => None,
        }
    }
}

/// Parses a JSON string, as `parse_string` says.
fn parse_string_exec(text: &str, i: usize) -> (r: Option<(String, usize)>)
    ensures
        (r is Some) == (parse_string(text@, i as int) is Some),
        r matches Some(p) ==> parse_string(text@, i as int) == Some((p.0@, p.1 as int)),
{
    proof {
        reveal_strlit("\"");
        assert("\""@ =~= seq!['"']);
    }
    match expect_exec(text, i, "\"") {
        Some(j) => scan_string_exec(text, j),
        None => None,
    }
}

/// Parses a backup kind, as `parse_kind` says.
fn parse_kind_exec(text: &str, i: usize) -> (r: Option<(Kind, usize)>)
    ensures
        (r is Some) == (parse_kind(text@, i as int) is Some),
        r matches Some(p) ==> parse_kind(text@, i as int) == Some((p.0, p.1 as int)),
{
    match expect_exec(text, i, "\"File\"") {
        Some(j) => Some((Kind::File, j)),
        None => match expect_exec(text, i, "\"Directory\"") {
            Some(j) => Some((Kind::Directory, j)),
            None => None,
        },
    }
}

/// Scans a run of digits, as `scan_digits` says.
fn scan_digits_exec(text: &str, i: usize) -> (r: (String, usize))
    ensures
        scan_digits(text@, i as int) == (r.0@, r.1 as int),
    decreases text@.len() - i,
{
    let n: usize = text.unicode_len();
    if i < n {
        let c: char = text.get_char(i);
        if '0' <= c && c <= '9' {
            let p = scan_digits_exec(text, i + 1);
            let mut out = String::new();
            crate::paths::push_char(&mut out, c);
            out.append(p.0.as_str());
            proof {
                assert(out@ =~= seq![text@[i as int]] + p.0@);
            }
            return (out, p.1);
        }
    }
    (String::new(), i)
}

fn digit_val_exec(c: char) -> (v: u64)
    ensures
        v as nat == digit_val(c),
{
    if c == '0' {
        0
    } else if c == '1' {
        1
    } else if c == '2' {
        2
    } else if c == '3' {
        3
    } else if c == '4' {
        4
    } else if c == '5' {
        5
    } else if c == '6' {
        6
    } else if c == '7' {
        7
    } else if c == '8' {
        8
    } else if c == '9' {
        9
    } else {
        10
    }
}

/// A prefix's value never exceeds the whole run's value.
proof fn lemma_dec_value_prefix(ds: Seq<char>, k: int)
    requires
        0 <= k <= ds.len(),
    ensures
        dec_value(ds.subrange(0, k)) <= dec_value(ds),
    decreases ds.len(),
{
    if k == ds.len() {
        assert(ds.subrange(0, k) =~= ds);
    } else {
        lemma_dec_value_prefix(ds.drop_last(), k);
        assert(ds.drop_last().subrange(0, k) =~= ds.subrange(0, k));
        assert(dec_value(ds) >= dec_value(ds.drop_last()));
    }
}

/// The value of a digit run, when it fits a u64.
fn dec_value_u64(ds: &String) -> (r: Option<u64>)
    ensures
        r matches Some(v) ==> (v as nat == dec_value(ds@) && dec_value(ds@) <= u64::MAX),
        r is None ==> dec_value(ds@) > u64::MAX,
{
    let text: &str = ds.as_str();
    let n: usize = text.unicode_len();
    let mut acc: u64 = 0;
    let mut i: usize = 0;
    proof {
        assert(ds@.subrange(0, 0) =~= Seq::<char>::empty());
    }
    while i < n
        invariant
            text@ == ds@,
            n == ds@.len(),
            0 <= i <= n,
            acc as nat == dec_value(ds@.subrange(0, i as int)),
        decreases n - i,
    {
        let c: char = text.get_char(i);
        let d: u64 = digit_val_exec(c);
        let wide: u128 = (acc as u128) * 10 + (d as u128);
        proof {
            assert(ds@.subrange(0, i + 1).drop_last() =~= ds@.subrange(0, i as int));
            assert(ds@.subrange(0, i + 1).last() == ds@[i as int]);
        }
        if wide > u64::MAX as u128 {
            proof {
                lemma_dec_value_prefix(ds@, i + 1);
            }
            return None;
        }
        acc = wide as u64;
        i = i + 1;
    }
    proof {
        assert(ds@.subrange(0, n as int) =~= ds@);
    }
    Some(acc)
}

/// Parses the latest-run field, as `parse_latest` says.
fn parse_latest_exec(text: &str, i: usize) -> (r: Option<(Option<u64>, usize)>)
    ensures
        (r is Some) == (parse_latest(text@, i as int) is Some),
        r matches Some(p) ==> parse_latest(text@, i as int) == Some((p.0, p.1 as int)),
{
    match expect_exec(text, i, "null") {
        Some(j) => Some((None, j)),
        None => {
            let p = scan_digits_exec(text, i);
            if p.0.as_str().unicode_len() >= 1 {
                match dec_value_u64(&p.0) {
                    Some(v) => Some((Some(v), p.1)),
                    None => None,
                }
            } else {
                None
            }
        },
    }
}

/// Parses the options field, as `parse_options` says.
fn parse_options_exec(text: &str, i: usize) -> (r: Option<(Option<Options>, usize)>)
    ensures
        (r is Some) == (parse_options(text@, i as int) is Some),
        r matches Some(p) ==> parse_options(text@, i as int) == Some((p.0, p.1 as int)),
{
    match expect_exec(text, i, "null") {
        Some(j) => Some((None, j)),
        None => match expect_exec(text, i, "{\"use_client_directory\":true}") {
            Some(j) => Some((Some(Options { use_client_directory: true }), j)),
            None => match expect_exec(text, i, "{\"use_client_directory\":false}") {
                Some(j) => Some((Some(Options { use_client_directory: false }), j)),
                None => None,
            },
        },
    }
}

/// Parses a location object, as `parse_location` says.
fn parse_location_exec(text: &str, i: usize) -> (r: Option<(Location, usize)>)
    ensures
        (r is Some) == (parse_location(text@, i as int) is Some),
        r matches Some(p) ==> parse_location(text@, i as int) == Some(
            ((p.0.entity_name@, p.0.path@), p.1 as int),
        ),
{
    let j1 = match expect_exec(text, i, "{\"entity_name\":") {
        Some(j) => j,
        None => {
            return None;
        },
    };
    let (entity_name, j2) = match parse_string_exec(text, j1) {
        Some(p) => p,
        None => {
            return None;
        },
    };
    let j3 = match expect_exec(text, j2, ",\"path\":") {
        Some(j) => j,
        None => {
            return None;
        },
    };
    let (path, j4) = match parse_string_exec(text, j3) {
        Some(p) => p,
        None => {
            return None;
        },
    };
    let j5 = match expect_exec(text, j4, "}") {
        Some(j) => j,
        None => {
            return None;
        },
    };
    Some((Location { entity_name, path }, j5))
}

/// Parses a backup object, as `parse_backup` says.
fn parse_backup_exec(text: &str, i: usize) -> (r: Option<(Backup, usize)>)
    ensures
        (r is Some) == (parse_backup(text@, i as int) is Some),
        r matches Some(p) ==> parse_backup(text@, i as int) == Some(
            (backup_data_of(p.0), p.1 as int),
        ),
{
    let j1 = match expect_exec(text, i, "{\"kind\":") {
        Some(j) => j,
        None => {
            return None;
        },
    };
    let (kind, j2) = match parse_kind_exec(text, j1) {
        Some(p) => p,
        None => {
            return None;
        },
    };
    let j3 = match expect_exec(text, j2, ",\"client_location\":") {
        Some(j) => j,
        None => {
            return None;
        },
    };
    let (client_location, j4) = match parse_location_exec(text, j3) {
        Some(p) => p,
        None => {
            return None;
        },
    };
    let j5 = match expect_exec(text, j4, ",\"server_location\":") {
        Some(j) => j,
        None => {
            return None;
        },
    };
    let (server_location, j6) = match parse_location_exec(text, j5) {
        Some(p) => p,
        None => {
            return None;
        },
    };
    let j7 = match expect_exec(text, j6, ",\"latest_run\":") {
        Some(j) => j,
        None => {
            return None;
        },
    };
    let (latest_run, j8) = match parse_latest_exec(text, j7) {
        Some(p) => p,
        None => {
            return None;
        },
    };
    let j9 = match expect_exec(text, j8, ",\"options\":") {
        Some(j) => j,
        None => {
            return None;
        },
    };
    let (options, j10) = match parse_options_exec(text, j9) {
        Some(p) => p,
        None => {
            return None;
        },
    };
    let j11 = match expect_exec(text, j10, "}") {
        Some(j) => j,
        None => {
            return None;
        },
    };
    Some((Backup { kind, client_location, server_location, latest_run, options }, j11))
}

/// Parses a run of backups, as `parse_items` says.
fn parse_items_exec(text: &str, i: usize, fuel: usize) -> (r: Option<(Vec<Backup>, usize)>)
    ensures
        (r is Some) == (parse_items(text@, i as int, fuel as nat) is Some),
        r matches Some(p) ==> parse_items(text@, i as int, fuel as nat) == Some(
            (catalog_data_of(p.0@), p.1 as int),
        ),
    decreases fuel,
{
    if fuel == 0 {
        return None;
    }
    let (backup, j) = match parse_backup_exec(text, i) {
        Some(p) => p,
        None => {
            return None;
        },
    };
    proof {
        reveal_strlit(",");
        assert(","@ =~= seq![',']);
    }
    match expect_exec(text, j, ",") {
        Some(k) => {
            match parse_items_exec(text, k, fuel - 1) {
                Some(p) => {
                    let (rest, m) = p;
                    let ghost rest_view = rest@;
                    let mut items = rest;
                    items.insert(0, backup);
                    proof {
                        assert(items@ =~= seq![backup] + rest_view);
                        assert(catalog_data_of(items@) =~= seq![backup_data_of(backup)]
                            + catalog_data_of(rest_view));
                    }
                    Some((items, m))
                },
                None => None,
            }
        },
        None => Some((vec_of_one(backup), j)),
    }
}

/// A vector holding one backup.
fn vec_of_one(b: Backup) -> (r: Vec<Backup>)
    ensures
        r@ =~= seq![b],
        catalog_data_of(r@) =~= seq![backup_data_of(b)],
{
    let mut r: Vec<Backup> = Vec::new();
    r.push(b);
    r
}

/// The catalog read back from JSON text: exactly the parse of the text, as
/// `parse_catalog` says.
pub fn catalog_from_json(text: &String) -> (r: Option<Vec<Backup>>)
    ensures
        (r is Some) == (parse_catalog(text@) is Some),
        r matches Some(bs) ==> parse_catalog(text@) == Some(catalog_data_of(bs@)),
{
    proof {
        reveal_strlit("[");
        reveal_strlit("]");
        assert("["@ =~= seq!['[']);
        assert("]"@ =~= seq![']']);
    }
    let t: &str = text.as_str();
    let n: usize = t.unicode_len();
    let i = match expect_exec(t, 0, "[") {
        Some(i) => i,
        None => {
            return None;
        },
    };
    match expect_exec(t, i, "]") {
        Some(j) => {
            if j == n {
                let empty: Vec<Backup> = Vec::new();
                proof {
                    assert(catalog_data_of(empty@) =~= Seq::<BackupData>::empty());
                }
                Some(empty)
            } else {
                None
            }
        },
        None => {
            let (items, j) = match parse_items_exec(t, i, n) {
                Some(p) => p,
                None => {
                    return None;
                },
            };
            match expect_exec(t, j, "]") {
                Some(k) => {
                    if k == n {
                        Some(items)
                    } else {
                        None
                    }
                },
                None => None,
            }
        },
    }
}

/// A whole catalog: a JSON array of backups spanning the entire text.
pub open spec fn parse_catalog(s: Seq<char>) -> Option<Seq<BackupData>> {
    match expect(s, 0, seq!['[']) {
        None => None,
        Some(i) => match expect(s, i, seq![']']) {
            Some(j) => if j == s.len() {
                Some(Seq::<BackupData>::empty())
            } else {
                None
            },
            None => match parse_items(s, i, s.len() as nat) {
                None => None,
                Some((items, j)) => match expect(s, j, seq![']']) {
                    Some(k) => if k == s.len() {
                        Some(items)
                    } else {
                        None
                    },
                    None => None,
                },
            },
        },
    }
}

} // verus!
