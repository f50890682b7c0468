//! What a trial is started with, and what is written about it.
//!
//! A trial is the build tool run on one vector. Its arguments are the base
//! arguments, `HID=` with the trial's number, and `KEY=VALUE` for each place
//! of the vector. Each line of its output goes, under a time stamp, to the
//! trial's log and to the terminal.

use crate::map::{Param, ParamView};
use crate::message::join;
use crate::number::{digits, padded, render_i64, render_padded, render_u64, rendered};
use crate::text::texts;
use crate::value::{Value, ValueView};
use chrono::Datelike;
use vstd::prelude::*;
use vstd::string::*;

verus! {

/// The text of a JSON object with three members, as `serde_json` writes it:
/// a text under `name_key`, a list of texts under `args_key` and a text under
/// `hash_key`.
pub uninterp spec fn preamble_text(
    name_key: Seq<char>,
    name: Seq<char>,
    args_key: Seq<char>,
    args: Seq<Seq<char>>,
    hash_key: Seq<char>,
    hash: Seq<char>,
) -> Seq<char>;

/// Writes a JSON object with three members: a text, a list of texts and a
/// text, each under its key.
///
/// Trusted: the body builds a `serde_json::Value` that is an object, puts the
/// three members in with `Map::insert`, the list as an array of strings, and
/// writes the object with `to_string`. The contract only names the result.
#[verifier::external_body]
pub(crate) fn preamble(
    name_key: &str,
    name: &String,
    args_key: &str,
    args: &Vec<String>,
    hash_key: &str,
    hash: &String,
) -> (r: String)
    ensures
        r@ == preamble_text(name_key@, name@, args_key@, texts(args@), hash_key@, hash@),
{
    let list = args.iter().map(|a| serde_json::Value::String(a.clone())).collect();
    let mut object = serde_json::Map::new();
    object.insert(name_key.to_string(), serde_json::Value::String(name.clone()));
    object.insert(args_key.to_string(), serde_json::Value::Array(list));
    object.insert(hash_key.to_string(), serde_json::Value::String(hash.clone()));
    serde_json::Value::Object(object).to_string()
}

/// The day in local time: year, month and day of the month.
///
/// Trusted: the body asks `chrono::Local::now()` for its `year`, `month` and
/// `day`. The day depends on the clock; `chrono` documents that the month
/// lies between 1 and 12 and the day between 1 and 31, and no more is
/// claimed.
#[verifier::external_body]
pub(crate) fn today() -> (r: (i32, u32, u32))
    ensures
        1 <= r.1 <= 12,
        1 <= r.2 <= 31,
{
    let now = chrono::Local::now();
    (now.year(), now.month(), now.day())
}

/// The moment in local time, as `chrono` writes it for `{:?}`.
///
/// Trusted: the body is `chrono::Local::now()` written with `{:?}`. It
/// depends on the clock, so nothing is claimed of the result.
#[verifier::external_body]
pub(crate) fn moment() -> String {
    format!("{:?}", chrono::Local::now())
}

/// The text that stands for a single value in an argument. A binary64 number
/// is written by the caller, who hands the text in.
pub open spec fn value_text(v: ValueView, float_text: Seq<char>) -> Seq<char> {
    match v {
        ValueView::Val(x) => x,
        ValueView::Int(x) => rendered(x),
        _ => float_text,
    }
}

/// The text of place `i` of `floats`, or nothing where `floats` is shorter.
pub open spec fn text_at(floats: Seq<Seq<char>>, i: int) -> Seq<char> {
    if 0 <= i < floats.len() {
        floats[i]
    } else {
        Seq::empty()
    }
}

/// The year as a date writes it: four digits from 0 to 9999, else a sign and
/// at least four digits.
pub open spec fn year_text(year: int) -> Seq<char> {
    if 0 <= year <= 9999 {
        padded(digits(year as nat), 4)
    } else if year < 0 {
        "-"@ + padded(digits((-year) as nat), 4)
    } else {
        "+"@ + padded(digits(year as nat), 4)
    }
}

/// A day as the name of a log writes it: the year, then month and day in two
/// digits each.
pub open spec fn date_text(year: int, month: nat, day: nat) -> Seq<char> {
    year_text(year) + padded(digits(month), 2) + padded(digits(day), 2)
}

/// The arguments that every trial of a run begins with: `-f` and the recipe,
/// the targets, and `NAME=` with the experiment's name.
pub open spec fn base_arguments(recipe: Seq<char>, targets: Seq<Seq<char>>, name: Seq<char>)
    -> Seq<Seq<char>> {
    seq!["-f"@, recipe] + targets + seq!["NAME="@ + name]
}

/// The arguments of a trial: the base arguments, `HID=` with the trial's
/// number, and `KEY=VALUE` for each place of the vector.
pub open spec fn arguments(
    args: Seq<Seq<char>>,
    id: nat,
    param: ParamView,
    floats: Seq<Seq<char>>,
) -> Seq<Seq<char>> {
    args.push("HID="@ + digits(id)) + Seq::new(
        param.len(),
        |i: int| param[i].0 + "="@ + value_text(param[i].1, text_at(floats, i)),
    )
}

/// The name of the log of a trial: the day, the experiment's name and the
/// trial's number in at least eight digits.
pub open spec fn log_name(date: Seq<char>, name: Seq<char>, id: nat) -> Seq<char> {
    ".hake/log/"@ + date + "_"@ + name + "_"@ + padded(digits(id), 8)
}

/// A line of a log: the time stamp in brackets, then the message.
pub open spec fn log_text(stamp: Seq<char>, msg: Seq<char>) -> Seq<char> {
    "["@ + stamp + "] "@ + msg + "\n"@
}

/// A line on the terminal: as in the log, but a report of the watched metric
/// stands in red.
pub open spec fn terminal_text(stamp: Seq<char>, msg: Seq<char>, is_metric: bool) -> Seq<char> {
    if is_metric {
        "["@ + stamp + "] \x1b[31m"@ + msg + "\x1b[0m\n"@
    } else {
        log_text(stamp, msg)
    }
}

/// Whether every place of the vector holds a single value.
pub open spec fn scalars(param: ParamView) -> bool {
    forall|i: int| 0 <= i < param.len() ==> (#[trigger] param[i]).1.scalar()
}

/// Whether every binary64 number of the vector has its text in `floats`.
pub open spec fn written(param: ParamView, floats: Seq<Seq<char>>) -> bool {
    forall|i: int| 0 <= i < param.len() && (#[trigger] param[i]).1 is Float ==> i < floats.len()
}

/// The arguments that every trial of a run begins with.
pub fn base_args(recipe: &String, targets: &Vec<String>, name: &String) -> (r: Vec<String>)
    ensures
        texts(r@) == base_arguments(recipe@, texts(targets@), name@),
{
    let mut r: Vec<String> = Vec::new();
    r.push("-f".to_owned());
    r.push(recipe.clone());
    let mut i: usize = 0;
    while i < targets.len()
        invariant
            i <= targets.len(),
            r.len() == 2 + i,
            r@[0]@ == "-f"@,
            r@[1]@ == recipe@,
            forall|j: int| 0 <= j < i ==> r@[2 + j]@ == targets@[j]@,
        decreases targets.len() - i,
    {
        r.push(targets[i].clone());
        i += 1;
    }
    r.push(join("NAME=", name.as_str()));
    assert(texts(r@) =~= base_arguments(recipe@, texts(targets@), name@));
    r
}

/// The arguments of a trial. `floats[i]` is the text of the binary64 number
/// at place `i` of the vector, where that place holds one.
pub fn trial_args(args: &Vec<String>, id: usize, param: &Param, floats: &Vec<String>) -> (r: Vec<
    String,
>)
    requires
        scalars(crate::map::named(param@)),
        written(crate::map::named(param@), texts(floats@)),
    ensures
        texts(r@) == arguments(
            texts(args@),
            id as nat,
            crate::map::named(param@),
            texts(floats@),
        ),
{
    let ghost want = arguments(
        texts(args@),
        id as nat,
        crate::map::named(param@),
        texts(floats@),
    );
    let mut r: Vec<String> = Vec::new();
    let mut i: usize = 0;
    while i < args.len()
        invariant
            i <= args.len(),
            r.len() == i,
            forall|j: int| 0 <= j < i ==> r@[j]@ == args@[j]@,
        decreases args.len() - i,
    {
        r.push(args[i].clone());
        i += 1;
    }
    let number = render_u64(id as u64);
    r.push(join("HID=", number.as_str()));
    let base: usize = r.len();
    let mut k: usize = 0;
    while k < param.len()
        invariant
            k <= param.len(),
            base == args.len() + 1,
            r.len() == base + k,
            want == arguments(
                texts(args@),
                id as nat,
                crate::map::named(param@),
                texts(floats@),
            ),
            forall|j: int| 0 <= j < r.len() ==> r@[j]@ == want[j],
        decreases param.len() - k,
    {
        let ghost before = r@;
        let key = &param[k].0;
        let val = &param[k].1;
        assert(crate::map::named(param@)[k as int] == (key@, val@));
        let head = join(key.as_str(), "=");
        let entry = match val {
            Value::Val(x) => join(head.as_str(), x.as_str()),
            Value::Int(x) => {
                let text = render_i64(*x);
                join(head.as_str(), text.as_str())
            },
            _ => {
                if k < floats.len() {
                    assert(texts(floats@)[k as int] == floats@[k as int]@);
                    join(head.as_str(), floats[k].as_str())
                } else {
                    assert(head@ + Seq::<char>::empty() =~= head@);
                    head
                }
            },
        };
        assert(entry@ == want[base + k]);
        r.push(entry);
        assert forall|j: int| 0 <= j < r.len() implies r@[j]@ == want[j] by {
            if j < before.len() {
                assert(r@[j] == before[j]);
            }
        }
        k += 1;
    }
    assert(texts(r@) =~= want);
    r
}

/// The name of the log of a trial that runs on the day `date`.
pub fn log_file_name_on(date: &str, name: &String, id: usize) -> (r: String)
    ensures
        r@ == log_name(date@, name@, id as nat),
{
    let number = render_padded(id as u64, 8);
    let a = join(".hake/log/", date);
    let b = join(a.as_str(), "_");
    let c = join(b.as_str(), name.as_str());
    let d = join(c.as_str(), "_");
    join(d.as_str(), number.as_str())
}

/// Writes a day as the name of a log has it.
pub fn date_string(year: i32, month: u32, day: u32) -> (r: String)
    ensures
        r@ == date_text(year as int, month as nat, day as nat),
{
    let y: String = if year >= 0 {
        let text = render_padded(year as u64, 4);
        if year <= 9999 {
            text
        } else {
            join("+", text.as_str())
        }
    } else {
        let text = render_padded((-(year as i64)) as u64, 4);
        join("-", text.as_str())
    };
    let m = render_padded(month as u64, 2);
    let d = render_padded(day as u64, 2);
    let ym = join(y.as_str(), m.as_str());
    join(ym.as_str(), d.as_str())
}

/// Whether `r` is the name of the log of trial `id` on some day of the
/// calendar.
pub open spec fn dated(r: Seq<char>, name: Seq<char>, id: nat) -> bool {
    exists|year: int, month: nat, day: nat|
        1 <= month <= 12 && 1 <= day <= 31 && r == #[trigger] log_name(
            date_text(year, month, day),
            name,
            id,
        )
}

/// The name of the log of a trial that runs today.
pub fn log_file_name(name: &String, id: usize) -> (r: String)
    ensures
        dated(r@, name@, id as nat),
{
    let day = today();
    let date = date_string(day.0, day.1, day.2);
    let r = log_file_name_on(date.as_str(), name, id);
    assert(r@ == log_name(date_text(day.0 as int, day.1 as nat, day.2 as nat), name@, id as nat));
    r
}

/// A line of a log.
pub fn log_line(stamp: &str, msg: &str) -> (r: String)
    ensures
        r@ == log_text(stamp@, msg@),
{
    let a = join("[", stamp);
    let b = join(a.as_str(), "] ");
    let c = join(b.as_str(), msg);
    join(c.as_str(), "\n")
}

/// A line on the terminal.
pub fn terminal_line(stamp: &str, msg: &str, is_metric: bool) -> (r: String)
    ensures
        r@ == terminal_text(stamp@, msg@, is_metric),
{
    if is_metric {
        let a = join("[", stamp);
        let b = join(a.as_str(), "] \x1b[31m");
        let c = join(b.as_str(), msg);
        join(c.as_str(), "\x1b[0m\n")
    } else {
        log_line(stamp, msg)
    }
}

/// Whether `lines` are the log's line and the terminal's line for `msg`
/// under one time stamp.
pub open spec fn stamped(lines: (String, String), msg: Seq<char>, is_metric: bool) -> bool {
    exists|stamp: Seq<char>|
        lines.0@ == #[trigger] log_text(stamp, msg) && lines.1@ == terminal_text(
            stamp,
            msg,
            is_metric,
        )
}

/// The log's line and the terminal's line for `msg`, stamped with the
/// present moment.
pub fn tee(msg: &str, is_metric: bool) -> (r: (String, String))
    ensures
        stamped(r, msg@, is_metric),
{
    let stamp = moment();
    let r = (log_line(stamp.as_str(), msg), terminal_line(stamp.as_str(), msg, is_metric));
    assert(r.0@ == log_text(stamp@, msg@));
    r
}

/// The first line of a log without its stamp: the JSON object that holds the
/// experiment's name under `name`, the trial's arguments under `make_args`
/// and the revision under `git_hash`.
pub open spec fn opening_text(name: Seq<char>, args: Seq<Seq<char>>, git_hash: Seq<char>) -> Seq<
    char,
> {
    preamble_text("name"@, name, "make_args"@, args, "git_hash"@, git_hash)
}

/// The first lines of a trial, for its log and for the terminal: the JSON
/// object with the experiment's name, the trial's arguments and the revision.
pub fn opening(name: &String, args: &Vec<String>, git_hash: &String) -> (r: (String, String))
    ensures
        stamped(r, opening_text(name@, texts(args@), git_hash@), false),
{
    let msg = preamble("name", name, "make_args", args, "git_hash", git_hash);
    tee(msg.as_str(), false)
}

} // verus!
