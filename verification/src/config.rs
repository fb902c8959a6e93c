//! The configuration of a ping operation, and the parameter that it is read from.

use vstd::prelude::*;

use crate::address::{
    ipv4_of, ipv4_text, law_ipv4_notation_unique, law_ipv4_read_back, lemma_ipv4_text_chars,
    parse_ipv4, Ipv4Addr,
};
use crate::decimal::{
    law_numeral_read_back, lemma_numeral_digits, numeral, parse_uint, push_numeral,
    uint_of, ParseUintError,
};
use crate::text::{
    blank, join, law_join_then_split, law_spaces_trimmed, law_split_counts, law_split_then_join,
    split, split_text, trim_spaces, trimmed, views,
};

verus! {

/// The fewest pings that an operation sends.
pub const MIN_PING_COUNT: u16 = 1;

/// The most pings that an operation sends.
pub const MAX_PING_COUNT: u16 = 10;

/// The longest interval between two pings, in milliseconds.
pub const MAX_INTERVAL_MS: u64 = 1000;

/// Configures a ping operation.
#[derive(Debug, Clone, Copy, PartialEq, Eq, Structural)]
pub struct Cfg {
    pub ipv4_adr: Ipv4Addr,
    pub ping_count: u16,
    pub interval_ms: u64,
}

impl Cfg {
    /// The configuration keeps to the limits.
    pub open spec fn valid(self) -> bool {
        &&& MIN_PING_COUNT <= self.ping_count <= MAX_PING_COUNT
        &&& self.interval_ms <= MAX_INTERVAL_MS
    }

    /// The parameter that stands for the configuration.
    pub open spec fn text(self) -> Seq<char> {
        join(
            seq![
                ipv4_text(self.ipv4_adr),
                numeral(self.ping_count as nat),
                numeral(self.interval_ms as nat),
            ],
            ',',
        )
    }
}

/// What is said of a parameter that has `n` parts.
pub open spec fn part_count_text(n: nat) -> Seq<char> {
    "Invalid parameter part count(actual: "@ + numeral(n) + ", expected: 3)"@
}

/// What is said of a first part that is no address.
pub open spec fn address_text(part: Seq<char>) -> Seq<char> {
    "Invalid parameter part: unable to parse address '"@ + part + "' as IPv4: "@
        + "invalid IPv4 address syntax"@
}

/// What is said of a second part that is no number of pings.
pub open spec fn ping_count_text(part: Seq<char>, e: ParseUintError) -> Seq<char> {
    "Invalid parameter part: unable to parse ping count '"@ + part + "' as u16: "@ + e.text()
}

/// What is said of too few pings.
pub open spec fn too_few_text(n: nat) -> Seq<char> {
    "Invalid parameter part: ping count is too small: (actual: "@ + numeral(n)
        + ", expected: >= 1)"@
}

/// What is said of too many pings.
pub open spec fn too_many_text(n: nat) -> Seq<char> {
    "Invalid parameter part: ping count is too large: (actual: "@ + numeral(n)
        + ", expected: <= 10)"@
}

/// What is said of a third part that is no interval.
pub open spec fn interval_text(part: Seq<char>, e: ParseUintError) -> Seq<char> {
    "Invalid parameter part: unable to parse interval '"@ + part + "' as u64: "@ + e.text()
}

/// What is said of an interval that is too long.
pub open spec fn too_long_text(n: nat) -> Seq<char> {
    "Invalid parameter part: interval is too large: (actual: "@ + numeral(n)
        + ", expected: <= 1000)"@
}

/// The configuration that a parameter stands for, or what is wrong with the parameter.
///
/// Spaces around a part do not matter. The parts of a parameter are looked at from the first to
/// the last, and the first thing that is wrong is the one that is reported.
pub open spec fn cfg_of(param: Seq<char>) -> Result<Cfg, Seq<char>> {
    let parts = split(param, ',');
    if parts.len() != 3 {
        Err(part_count_text(parts.len()))
    } else {
        match (
            ipv4_of(trimmed(parts[0])),
            uint_of(trimmed(parts[1]), u16::MAX as nat),
            uint_of(trimmed(parts[2]), u64::MAX as nat),
        ) {
            (None, _, _) => Err(address_text(parts[0])),
            (_, Err(e), _) => Err(ping_count_text(parts[1], e)),
            (_, Ok(count), _) if count < MIN_PING_COUNT => Err(too_few_text(count)),
            (_, Ok(count), _) if count > MAX_PING_COUNT => Err(too_many_text(count)),
            (_, _, Err(e)) => Err(interval_text(parts[2], e)),
            (_, _, Ok(interval)) if interval > MAX_INTERVAL_MS => Err(too_long_text(interval)),
            (Some(adr), Ok(count), Ok(interval)) => Ok(
                Cfg { ipv4_adr: adr, ping_count: count as u16, interval_ms: interval as u64 },
            ),
        }
    }
}

/// A message about the number `n`.
fn number_message(before: &str, n: u64, after: &str) -> (message: String)
    ensures
        message@ == before@ + numeral(n as nat) + after@,
{
    let mut message = before.to_owned();
    push_numeral(&mut message, n as u128);
    message.append(after);
    message
}

/// A message about the text `part`, with the reason for it at the end.
fn part_message(before: &str, part: &str, after: &str, reason: &str) -> (message: String)
    ensures
        message@ == before@ + part@ + after@ + reason@,
{
    let mut message = before.to_owned();
    message.append(part);
    message.append(after);
    message.append(reason);
    message
}

/// Parses a parameter to a configuration.
///
/// The parameter is an IPv4 address, a ping count and an interval in milliseconds, with commas
/// between them, as in `1.1.1.1,3,1000` or `1.1.1.1, 3, 1000`.
pub fn parse_cfg(param_str: String) -> (res: Result<Cfg, String>)
    ensures
        match res {
            Ok(cfg) => cfg_of(param_str@) == Ok::<Cfg, Seq<char>>(cfg),
            Err(message) => cfg_of(param_str@) == Err::<Cfg, Seq<char>>(message@),
        },
        res matches Ok(cfg) ==> 1 <= cfg.ping_count <= 10 && cfg.interval_ms <= 1000,
{
    // Split the string into a vector of strings
    let params = split_text(param_str.as_str(), ',');
    assert(views(params@).len() == params@.len());
    if params.len() != 3 {
        return Err(
            number_message(
                "Invalid parameter part count(actual: ",
                params.len() as u64,
                ", expected: 3)",
            ),
        );
    }
    assert(forall|i: int| 0 <= i < 3 ==> #[trigger] views(params@)[i] == params@[i]@);

    // Parse the IPv4 address
    let ipv4 = match parse_ipv4(trim_spaces(params[0])) {
        None => {
            return Err(
                part_message(
                    "Invalid parameter part: unable to parse address '",
                    params[0],
                    "' as IPv4: ",
                    "invalid IPv4 address syntax",
                ),
            );
        },
        Some(v) => v,
    };

    // Parse the ping count
    let ping_count: u64 = match parse_uint(trim_spaces(params[1]), u16::MAX as u64) {
        Err(e) => {
            return Err(
                part_message(
                    "Invalid parameter part: unable to parse ping count '",
                    params[1],
                    "' as u16: ",
                    e.message(),
                ),
            );
        },
        Ok(v) => v,
    };

    // Validate ping count minimum
    if ping_count < MIN_PING_COUNT as u64 {
        return Err(
            number_message(
                "Invalid parameter part: ping count is too small: (actual: ",
                ping_count,
                ", expected: >= 1)",
            ),
        );
    }

    // Validate ping count maximum
    if ping_count > MAX_PING_COUNT as u64 {
        return Err(
            number_message(
                "Invalid parameter part: ping count is too large: (actual: ",
                ping_count,
                ", expected: <= 10)",
            ),
        );
    }

    // Parse the interval
    let interval_ms: u64 = match parse_uint(trim_spaces(params[2]), u64::MAX) {
        Err(e) => {
            return Err(
                part_message(
                    "Invalid parameter part: unable to parse interval '",
                    params[2],
                    "' as u64: ",
                    e.message(),
                ),
            );
        },
        Ok(v) => v,
    };

    // Validate interval maximum
    if interval_ms > MAX_INTERVAL_MS {
        return Err(
            number_message(
                "Invalid parameter part: interval is too large: (actual: ",
                interval_ms,
                ", expected: <= 1000)",
            ),
        );
    }

    Ok(Cfg { ipv4_adr: ipv4, ping_count: ping_count as u16, interval_ms })
}

/// Every configuration that is read keeps to the limits.
pub proof fn law_cfg_valid(param: Seq<char>, cfg: Cfg)
    requires
        cfg_of(param) == Ok::<Cfg, Seq<char>>(cfg),
    ensures
        cfg.valid(),
{
}

/// Every configuration that keeps to the limits can be asked for, with any number of spaces
/// around each part of its text.
pub proof fn law_cfg_read_back_spaced(
    cfg: Cfg,
    front: (Seq<char>, Seq<char>, Seq<char>),
    back: (Seq<char>, Seq<char>, Seq<char>),
)
    requires
        cfg.valid(),
        blank(front.0) && blank(front.1) && blank(front.2),
        blank(back.0) && blank(back.1) && blank(back.2),
    ensures
        cfg_of(
            join(
                seq![
                    front.0 + ipv4_text(cfg.ipv4_adr) + back.0,
                    front.1 + numeral(cfg.ping_count as nat) + back.1,
                    front.2 + numeral(cfg.interval_ms as nat) + back.2,
                ],
                ',',
            ),
        ) == Ok::<Cfg, Seq<char>>(cfg),
{
    let adr = ipv4_text(cfg.ipv4_adr);
    let count = numeral(cfg.ping_count as nat);
    let interval = numeral(cfg.interval_ms as nat);
    law_ipv4_read_back(cfg.ipv4_adr);
    law_numeral_read_back(cfg.ping_count as nat, u16::MAX as nat);
    law_numeral_read_back(cfg.interval_ms as nat, u64::MAX as nat);
    lemma_ipv4_text_chars(cfg.ipv4_adr);
    lemma_numeral_digits(cfg.ping_count as nat);
    lemma_numeral_digits(cfg.interval_ms as nat);
    assert(adr.len() > 0 ==> adr.contains(adr[0]) && adr.contains(adr.last()));
    law_spaces_trimmed(front.0, adr, back.0);
    law_spaces_trimmed(front.1, count, back.1);
    law_spaces_trimmed(front.2, interval, back.2);
    let parts = seq![front.0 + adr + back.0, front.1 + count + back.1, front.2 + interval + back.2];
    assert(!adr.contains(','));
    assert forall|i: int| 0 <= i < parts.len() implies !(#[trigger] parts[i]).contains(',') by {}
    law_join_then_split(parts, ',');
}

/// Every configuration that keeps to the limits can be asked for: it is read from its text.
pub proof fn law_cfg_read_back(cfg: Cfg)
    requires
        cfg.valid(),
    ensures
        cfg_of(cfg.text()) == Ok::<Cfg, Seq<char>>(cfg),
{
    let none = Seq::<char>::empty();
    law_cfg_read_back_spaced(cfg, (none, none, none), (none, none, none));
    assert(none + ipv4_text(cfg.ipv4_adr) + none == ipv4_text(cfg.ipv4_adr));
    assert(none + numeral(cfg.ping_count as nat) + none == numeral(cfg.ping_count as nat));
    assert(none + numeral(cfg.interval_ms as nat) + none == numeral(cfg.interval_ms as nat));
}

/// The limits in numbers, and the text of a configuration piece by piece.
pub proof fn law_cfg_limits(cfg: Cfg)
    ensures
        cfg.valid() <==> 1 <= cfg.ping_count <= 10 && cfg.interval_ms <= 1000,
        cfg.text() == ipv4_text(cfg.ipv4_adr) + seq![','] + numeral(cfg.ping_count as nat)
            + seq![','] + numeral(cfg.interval_ms as nat),
{
    let (adr, count, interval) = (
        ipv4_text(cfg.ipv4_adr),
        numeral(cfg.ping_count as nat),
        numeral(cfg.interval_ms as nat),
    );
    assert(seq![adr, count, interval].drop_last() == seq![adr, count]);
    assert(seq![adr, count].drop_last() == seq![adr]);
    reveal_with_fuel(join, 3);
}

/// The pieces of a parameter that is three parts with commas between them.
proof fn lemma_three_parts(p0: Seq<char>, p1: Seq<char>, p2: Seq<char>)
    requires
        !p0.contains(','),
        !p1.contains(','),
        !p2.contains(','),
    ensures
        split(p0 + seq![','] + p1 + seq![','] + p2, ',') == seq![p0, p1, p2],
{
    let pieces = seq![p0, p1, p2];
    law_join_then_split(pieces, ',');
    assert(pieces.drop_last() == seq![p0, p1]);
    assert(seq![p0, p1].drop_last() == seq![p0]);
    reveal_with_fuel(join, 3);
    assert(join(pieces, ',') == p0 + seq![','] + p1 + seq![','] + p2);
}

/// Which parameters are accepted, and as what. Of three parts with commas between them, without
/// the spaces around each, the first is the notation of the address, the second reads as the
/// number of pings, from 1 to 10, and the third reads as the interval, up to 1000.
pub proof fn law_cfg_accepted(p0: Seq<char>, p1: Seq<char>, p2: Seq<char>, cfg: Cfg)
    requires
        !p0.contains(','),
        !p1.contains(','),
        !p2.contains(','),
    ensures
        cfg_of(p0 + seq![','] + p1 + seq![','] + p2) == Ok::<Cfg, Seq<char>>(cfg) <==> {
            &&& trimmed(p0) == ipv4_text(cfg.ipv4_adr)
            &&& uint_of(trimmed(p1), 65535) == Ok::<nat, ParseUintError>(cfg.ping_count as nat)
            &&& uint_of(trimmed(p2), 18446744073709551615) == Ok::<nat, ParseUintError>(
                cfg.interval_ms as nat,
            )
            &&& 1 <= cfg.ping_count <= 10
            &&& cfg.interval_ms <= 1000
        },
{
    lemma_three_parts(p0, p1, p2);
    law_ipv4_read_back(cfg.ipv4_adr);
    if ipv4_of(trimmed(p0)) is Some {
        law_ipv4_notation_unique(trimmed(p0), ipv4_of(trimmed(p0)).unwrap());
    }
}

/// Nothing is accepted that does not stand for what it is accepted as: a parameter that gives a
/// configuration is three parts with commas between them, the notation of its address, its
/// number of pings and its interval, each with spaces around it at most.
pub proof fn law_cfg_sound(param: Seq<char>, cfg: Cfg)
    requires
        cfg_of(param) == Ok::<Cfg, Seq<char>>(cfg),
    ensures
        1 <= cfg.ping_count <= 10,
        cfg.interval_ms <= 1000,
        exists|p0: Seq<char>, p1: Seq<char>, p2: Seq<char>|
            {
                &&& #[trigger] (p0 + seq![','] + p1 + seq![','] + p2) == param
                &&& !p0.contains(',') && !p1.contains(',') && !p2.contains(',')
                &&& trimmed(p0) == ipv4_text(cfg.ipv4_adr)
                &&& uint_of(trimmed(p1), 65535) == Ok::<nat, ParseUintError>(
                    cfg.ping_count as nat,
                )
                &&& uint_of(trimmed(p2), 18446744073709551615) == Ok::<nat, ParseUintError>(
                    cfg.interval_ms as nat,
                )
            },
{
    let pieces = split(param, ',');
    lemma_cut_in_three(param);
    let (p0, p1, p2) = (pieces[0], pieces[1], pieces[2]);
    assert(p0 + seq![','] + p1 + seq![','] + p2 == param);
    law_cfg_accepted(p0, p1, p2, cfg);
}

/// A parameter of three pieces is those pieces with commas between them.
proof fn lemma_cut_in_three(param: Seq<char>)
    requires
        split(param, ',').len() == 3,
    ensures
        ({
            let pieces = split(param, ',');
            &&& pieces[0] + seq![','] + pieces[1] + seq![','] + pieces[2] == param
            &&& !pieces[0].contains(',') && !pieces[1].contains(',') && !pieces[2].contains(',')
        }),
{
    let pieces = split(param, ',');
    law_split_then_join(param, ',');
    assert(pieces == seq![pieces[0], pieces[1], pieces[2]]);
    assert(pieces.drop_last() == seq![pieces[0], pieces[1]]);
    assert(seq![pieces[0], pieces[1]].drop_last() == seq![pieces[0]]);
    reveal_with_fuel(join, 3);
}

/// A parameter has as many parts as it has commas, and one more. One with two commas is three
/// parts without any, and every other is refused for the number of its parts.
pub proof fn law_cfg_part_count(param: Seq<char>)
    ensures
        ({
            let commas = param.filter(|c: char| c == ',').len();
            &&& commas != 2 ==> cfg_of(param) == Err::<Cfg, Seq<char>>(
                "Invalid parameter part count(actual: "@ + numeral(commas + 1)
                    + ", expected: 3)"@,
            )
            &&& commas == 2 ==> exists|p0: Seq<char>, p1: Seq<char>, p2: Seq<char>|
                {
                    &&& #[trigger] (p0 + seq![','] + p1 + seq![','] + p2) == param
                    &&& !p0.contains(',') && !p1.contains(',') && !p2.contains(',')
                }
        }),
{
    law_split_counts(param, ',');
    if split(param, ',').len() == 3 {
        lemma_cut_in_three(param);
        let pieces = split(param, ',');
        assert(pieces[0] + seq![','] + pieces[1] + seq![','] + pieces[2] == param);
    }
}

/// What is said of a parameter of three parts that is refused. A first part that is the notation
/// of no address comes before all else; then a second part that is no number, or not from 1 to
/// 10; then a third part that is no number, or more than 1000.
pub proof fn law_cfg_refused(p0: Seq<char>, p1: Seq<char>, p2: Seq<char>, adr: Ipv4Addr)
    requires
        !p0.contains(','),
        !p1.contains(','),
        !p2.contains(','),
    ensures
        ({
            let res = cfg_of(p0 + seq![','] + p1 + seq![','] + p2);
            let count = uint_of(trimmed(p1), 65535);
            let interval = uint_of(trimmed(p2), 18446744073709551615);
            &&& (forall|other: Ipv4Addr| trimmed(p0) != #[trigger] ipv4_text(other)) ==> res
                == Err::<Cfg, Seq<char>>(
                "Invalid parameter part: unable to parse address '"@ + p0 + "' as IPv4: "@
                    + "invalid IPv4 address syntax"@,
            )
            &&& trimmed(p0) == ipv4_text(adr) && count is Err ==> res == Err::<Cfg, Seq<char>>(
                "Invalid parameter part: unable to parse ping count '"@ + p1 + "' as u16: "@ + (
                match count->Err_0 {
                    ParseUintError::Empty => "cannot parse integer from empty string"@,
                    ParseUintError::InvalidDigit => "invalid digit found in string"@,
                    ParseUintError::PosOverflow => "number too large to fit in target type"@,
                }),
            )
            &&& trimmed(p0) == ipv4_text(adr) && count == Ok::<nat, ParseUintError>(0) ==> res
                == Err::<Cfg, Seq<char>>(
                "Invalid parameter part: ping count is too small: (actual: "@ + numeral(0)
                    + ", expected: >= 1)"@,
            )
            &&& trimmed(p0) == ipv4_text(adr) && count is Ok && count->Ok_0 > 10 ==> res == Err::<
                Cfg,
                Seq<char>,
            >(
                "Invalid parameter part: ping count is too large: (actual: "@ + numeral(
                    count->Ok_0,
                ) + ", expected: <= 10)"@,
            )
            &&& trimmed(p0) == ipv4_text(adr) && count is Ok && 1 <= count->Ok_0 <= 10
                && interval is Err ==> res == Err::<Cfg, Seq<char>>(
                "Invalid parameter part: unable to parse interval '"@ + p2 + "' as u64: "@ + (
                match interval->Err_0 {
                    ParseUintError::Empty => "cannot parse integer from empty string"@,
                    ParseUintError::InvalidDigit => "invalid digit found in string"@,
                    ParseUintError::PosOverflow => "number too large to fit in target type"@,
                }),
            )
            &&& trimmed(p0) == ipv4_text(adr) && count is Ok && 1 <= count->Ok_0 <= 10
                && interval is Ok && interval->Ok_0 > 1000 ==> res == Err::<Cfg, Seq<char>>(
                "Invalid parameter part: interval is too large: (actual: "@ + numeral(
                    interval->Ok_0,
                ) + ", expected: <= 1000)"@,
            )
        }),
{
    lemma_three_parts(p0, p1, p2);
    law_ipv4_read_back(adr);
    if ipv4_of(trimmed(p0)) is Some {
        law_ipv4_notation_unique(trimmed(p0), ipv4_of(trimmed(p0)).unwrap());
    }
}

} // verus!
