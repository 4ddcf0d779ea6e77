//! The log-structured storage engine: the command log record with its JSON
//! line codec, and the store that keeps an in-memory index over the log.
//!
//! Every record is one line of JSON: `{"Set":["key","value"]}` for a write,
//! `{"Rm":"key"}` for a tombstone.  The string payloads are encoded and
//! decoded by serde_json behind trusted wrappers; the framing around them is
//! verified here.

use vstd::prelude::*;

use crate::error::{KvsError, KvsErrorKind};
use crate::text::{starts_with, str_eq};

verus! {

/// A log record: the unit written to the on-disk log.
#[derive(Debug, PartialEq, Eq)]
pub enum Command {
    /// Bind a key to a value; the JSON tag of this variant is `Set`.
    Put(String, String),
    /// Drop a key: a tombstone.
    Rm(String),
}

/// The mathematical shape of a log record.
pub enum CommandModel {
    /// Bind a key to a value.
    Put { key: Seq<char>, value: Seq<char> },
    /// Drop a key.
    Rm { key: Seq<char> },
}

impl Clone for Command {
    fn clone(&self) -> (r: Self)
        ensures
            r == *self,
    {
        match self {
            Command::Put(k, v) => Command::Put(k.clone(), v.clone()),
            Command::Rm(k) => Command::Rm(k.clone()),
        }
    }
}

impl View for Command {
    type V = CommandModel;

    open spec fn view(&self) -> CommandModel {
        match self {
            Command::Put(k, v) => CommandModel::Put { key: k@, value: v@ },
            Command::Rm(k) => CommandModel::Rm { key: k@ },
        }
    }
}

/// What serde_json makes of a pair of strings: a two-element JSON array of
/// string literals.  A function of the two strings alone.
pub uninterp spec fn json_pair_of(a: Seq<char>, b: Seq<char>) -> Seq<char>;

/// What serde_json makes of one string: its JSON string literal.  A function
/// of the string alone.
pub uninterp spec fn json_str_of(s: Seq<char>) -> Seq<char>;

/// What serde_json reads a candidate pair encoding back as: the pair, or
/// nothing when it rejects the text.  A function of the text alone.
pub uninterp spec fn json_pair_read_of(s: Seq<char>) -> Option<(Seq<char>, Seq<char>)>;

/// What serde_json reads a candidate string literal back as: the string, or
/// nothing when it rejects the text.  A function of the text alone.
pub uninterp spec fn json_str_read_of(s: Seq<char>) -> Option<Seq<char>>;

/// Relies on serde_json::to_string for a pair of strings: the result is
/// determined by the two strings, and holds no raw control character, every
/// one being escaped, so the encoding stays on one line.
#[verifier::external_body]
fn to_json_pair(a: &str, b: &str) -> (r: String)
    ensures
        r@ == json_pair_of(a@, b@),
        forall|i: int| 0 <= i < r@.len() ==> r@[i] != '\n' && r@[i] != '\r',
{
    serde_json::to_string(&(a, b)).unwrap()
}

/// Relies on serde_json::from_str for a pair of strings: what it reads is a
/// function of the text alone, and reading back what serde_json wrote for a
/// pair yields that pair.
#[verifier::external_body]
fn from_json_pair(s: &str) -> (r: Result<(String, String), serde_json::Error>)
    ensures
        r is Ok <==> json_pair_read_of(s@) is Some,
        r matches Ok(kv) ==> json_pair_read_of(s@) == Some((kv.0@, kv.1@)),
        forall|a: Seq<char>, b: Seq<char>|
            s@ == json_pair_of(a, b) ==> r is Ok && r->Ok_0.0@ == a && r->Ok_0.1@ == b,
{
    serde_json::from_str(s)
}

/// Relies on serde_json::to_string for one string: the result is determined
/// by the string, and holds no raw control character, every one being
/// escaped, so the encoding stays on one line.
#[verifier::external_body]
fn to_json_string(s: &str) -> (r: String)
    ensures
        r@ == json_str_of(s@),
        forall|i: int| 0 <= i < r@.len() ==> r@[i] != '\n' && r@[i] != '\r',
{
    serde_json::to_string(s).unwrap()
}

/// Relies on serde_json::from_str for one string: what it reads is a
/// function of the text alone, and reading back what serde_json wrote for a
/// string yields that string.
#[verifier::external_body]
fn from_json_string(s: &str) -> (r: Result<String, serde_json::Error>)
    ensures
        r is Ok <==> json_str_read_of(s@) is Some,
        r matches Ok(t) ==> json_str_read_of(s@) == Some(t@),
        forall|t: Seq<char>| s@ == json_str_of(t) ==> r is Ok && r->Ok_0@ == t,
{
    serde_json::from_str(s)
}

/// The one line of JSON that encodes a record.
pub open spec fn spec_encode_command(c: CommandModel) -> Seq<char> {
    match c {
        CommandModel::Put { key, value } => "{\"Set\":"@ + json_pair_of(key, value) + "}"@,
        CommandModel::Rm { key } => "{\"Rm\":"@ + json_str_of(key) + "}"@,
    }
}

/// Whether a line opens and closes like a `Set` record.
pub open spec fn set_framed(s: Seq<char>) -> bool {
    s.len() >= 8 && s.subrange(0, 7) == "{\"Set\":"@ && s[s.len() - 1] == '}'
}

/// Whether a line opens and closes like a `Rm` record.
pub open spec fn rm_framed(s: Seq<char>) -> bool {
    s.len() >= 7 && s.subrange(0, 6) == "{\"Rm\":"@ && s[s.len() - 1] == '}'
}

/// What one log line reads back as: the frame picks the variant, serde_json
/// reads the payload inside it, and everything else is rejected.
pub open spec fn spec_read_command(line: Seq<char>) -> Option<CommandModel> {
    if set_framed(line) {
        match json_pair_read_of(line.subrange(7, line.len() - 1)) {
            Some(kv) => Some(CommandModel::Put { key: kv.0, value: kv.1 }),
            None => None,
        }
    } else if rm_framed(line) {
        match json_str_read_of(line.subrange(6, line.len() - 1)) {
            Some(k) => Some(CommandModel::Rm { key: k }),
            None => None,
        }
    } else {
        None
    }
}

/// Render a record as its log line.  The line never holds a raw line break:
/// one record is one line.
pub fn encode_command(c: &Command) -> (r: String)
    ensures
        r@ == spec_encode_command(c@),
        forall|i: int| 0 <= i < r@.len() ==> r@[i] != '\n' && r@[i] != '\r',
{
    proof {
        reveal_strlit("{\"Set\":");
        reveal_strlit("{\"Rm\":");
        reveal_strlit("}");
    }
    match c {
        Command::Put(k, v) => {
            let mut s = String::from_str("{\"Set\":");
            let pair = to_json_pair(k.as_str(), v.as_str());
            s.append(pair.as_str());
            s.append("}");
            s
        },
        Command::Rm(k) => {
            let mut s = String::from_str("{\"Rm\":");
            let lit = to_json_string(k.as_str());
            s.append(lit.as_str());
            s.append("}");
            s
        },
    }
}

/// Read a record back from one log line: exactly the lines `spec_read_command`
/// accounts for decode, to exactly that record; every other line is a
/// `Serde` error, the unframed ones included.
pub fn decode_command(line: &str) -> (r: Result<Command, KvsError>)
    ensures
        forall|c: CommandModel| line@ == spec_encode_command(c) ==> r is Ok && r->Ok_0@ == c,
        r is Ok <==> spec_read_command(line@) is Some,
        r matches Ok(cmd) ==> spec_read_command(line@) == Some(cmd@),
        r is Err ==> r->Err_0.kind is Serde,
{
    proof {
        reveal_strlit("{\"Set\":");
        reveal_strlit("{\"Rm\":");
        reveal_strlit("}");
    }
    let n = line.unicode_len();
    if starts_with(line, "{\"Set\":") {
        if n >= 8 && line.get_char(n - 1) == '}' {
            let middle = line.substring_char(7, n - 1);
            match from_json_pair(middle) {
                Ok(kv) => {
                    let ghost kvv = (kv.0@, kv.1@);
                    let cmd = Command::Put(kv.0, kv.1);
                    proof {
                        lemma_set_middle_is_pair(line@, middle@);
                        assert(json_pair_read_of(middle@) == Some(kvv));
                        assert(spec_read_command(line@) == Some(cmd@));
                        assert forall|c: CommandModel|
                            line@ == spec_encode_command(c) implies cmd@ == c by {
                            assert(middle@ == json_pair_of(c->Put_key, c->Put_value));
                        }
                    }
                    Ok(cmd)
                },
                Err(e) => {
                    proof {
                        lemma_set_middle_is_pair(line@, middle@);
                        assert(spec_read_command(line@) is None);
                        assert forall|c: CommandModel|
                            line@ != spec_encode_command(c) by {
                            if line@ == spec_encode_command(c) {
                                assert(middle@ == json_pair_of(c->Put_key, c->Put_value));
                            }
                        }
                    }
                    Err(KvsError::from(e))
                },
            }
        } else {
            proof {
                lemma_encoded_is_framed();
                assert(!rm_framed(line@)) by {
                    if rm_framed(line@) {
                        assert(line@.subrange(0, 6)[2] == line@[2]);
                        assert(line@.subrange(0, 7)[2] == line@[2]);
                    }
                }
                assert(spec_read_command(line@) is None);
                assert forall|c: CommandModel| line@ != spec_encode_command(c) by {
                    if line@ == spec_encode_command(c) {
                        if c is Rm {
                            assert(rm_framed(line@));
                        } else {
                            assert(set_framed(line@));
                        }
                    }
                }
            }
            Err(KvsError::from(KvsErrorKind::Serde))
        }
    } else if starts_with(line, "{\"Rm\":") {
        if n >= 7 && line.get_char(n - 1) == '}' {
            let middle = line.substring_char(6, n - 1);
            match from_json_string(middle) {
                Ok(k) => {
                    let ghost kv = k@;
                    let cmd = Command::Rm(k);
                    proof {
                        lemma_rm_middle_is_literal(line@, middle@);
                        lemma_frames_exclusive(line@);
                        assert(json_str_read_of(middle@) == Some(kv));
                        assert(spec_read_command(line@) == Some(cmd@));
                        assert forall|c: CommandModel|
                            line@ == spec_encode_command(c) implies cmd@ == c by {
                            assert(middle@ == json_str_of(c->Rm_key));
                        }
                    }
                    Ok(cmd)
                },
                Err(e) => {
                    proof {
                        lemma_rm_middle_is_literal(line@, middle@);
                        lemma_frames_exclusive(line@);
                        assert(spec_read_command(line@) is None);
                        assert forall|c: CommandModel|
                            line@ != spec_encode_command(c) by {
                            if line@ == spec_encode_command(c) {
                                assert(middle@ == json_str_of(c->Rm_key));
                            }
                        }
                    }
                    Err(KvsError::from(e))
                },
            }
        } else {
            proof {
                lemma_encoded_is_framed();
                assert(!set_framed(line@));
                assert(spec_read_command(line@) is None);
                assert forall|c: CommandModel| line@ != spec_encode_command(c) by {
                    if line@ == spec_encode_command(c) {
                        if c is Put {
                            assert(set_framed(line@));
                        } else {
                            assert(rm_framed(line@));
                        }
                    }
                }
            }
            Err(KvsError::from(KvsErrorKind::Serde))
        }
    } else {
        proof {
            lemma_encoded_is_framed();
            assert(!set_framed(line@));
            assert(!rm_framed(line@));
            assert(spec_read_command(line@) is None);
            assert forall|c: CommandModel| line@ != spec_encode_command(c) by {
                if line@ == spec_encode_command(c) {
                    if c is Put {
                        assert(set_framed(line@));
                    } else {
                        assert(rm_framed(line@));
                    }
                }
            }
        }
        Err(KvsError::from(KvsErrorKind::Serde))
    }
}

/// No line is framed like both record variants: the two prefixes disagree
/// in their third character.
proof fn lemma_frames_exclusive(line: Seq<char>)
    ensures
        !(set_framed(line) && rm_framed(line)),
{
    reveal_strlit("{\"Set\":");
    reveal_strlit("{\"Rm\":");
    if set_framed(line) && rm_framed(line) {
        assert(line.subrange(0, 7)[2] == line[2]);
        assert(line.subrange(0, 6)[2] == line[2]);
    }
}

/// An encoded record is framed like its variant and like no other, so the
/// frame alone decides which decoder runs.
proof fn lemma_encoded_is_framed()
    ensures
        forall|c: CommandModel| #![trigger spec_encode_command(c)]
            (c is Put ==> set_framed(spec_encode_command(c)) && !rm_framed(spec_encode_command(c)))
            && (c is Rm ==> rm_framed(spec_encode_command(c)) && !set_framed(spec_encode_command(c))),
{
    reveal_strlit("{\"Set\":");
    reveal_strlit("{\"Rm\":");
    reveal_strlit("}");
    assert forall|c: CommandModel| #![trigger spec_encode_command(c)]
        (c is Put ==> set_framed(spec_encode_command(c)) && !rm_framed(spec_encode_command(c)))
        && (c is Rm ==> rm_framed(spec_encode_command(c)) && !set_framed(spec_encode_command(c))) by {
        let e = spec_encode_command(c);
        match c {
            CommandModel::Put { key, value } => {
                assert(e.subrange(0, 7) =~= "{\"Set\":"@);
                assert(e[e.len() - 1] == '}');
                assert(e[2] == 'S');
                assert(rm_framed(e) ==> e.subrange(0, 6)[2] == 'R' && e[2] == 'S');
            },
            CommandModel::Rm { key } => {
                assert(e.subrange(0, 6) =~= "{\"Rm\":"@);
                assert(e[e.len() - 1] == '}');
                assert(e[2] == 'R');
                assert(set_framed(e) ==> e.subrange(0, 7)[2] == 'S' && e[2] == 'R');
            },
        }
    }
}

/// Inside a `Set` frame, the middle of an encoded record is exactly the
/// serde_json pair.
proof fn lemma_set_middle_is_pair(line: Seq<char>, middle: Seq<char>)
    requires
        set_framed(line),
        middle == line.subrange(7, line.len() - 1),
    ensures
        forall|c: CommandModel| line == spec_encode_command(c) && c is Put
            ==> middle == json_pair_of(c->Put_key, c->Put_value),
        forall|c: CommandModel| line == spec_encode_command(c) ==> c is Put,
{
    lemma_encoded_is_framed();
    reveal_strlit("{\"Set\":");
    reveal_strlit("{\"Rm\":");
    reveal_strlit("}");
    assert forall|c: CommandModel| line == spec_encode_command(c) implies c is Put by {
        if c is Rm {
            assert(line[2] == 'R');
            assert(set_framed(line) ==> line.subrange(0, 7)[2] == 'S');
            assert(rm_framed(line) && !set_framed(line));
            assert(line.subrange(0, 7)[2] == line[2]);
        }
    }
    assert forall|c: CommandModel|
        line == spec_encode_command(c) && c is Put implies middle == json_pair_of(
        c->Put_key,
        c->Put_value,
    ) by {
        let p = json_pair_of(c->Put_key, c->Put_value);
        assert(line =~= "{\"Set\":"@ + p + "}"@);
        assert(middle.len() == p.len());
        assert forall|i: int| 0 <= i < p.len() implies middle[i] == p[i] by {
            assert(middle[i] == line[7 + i]);
            assert(line[7 + i] == ("{\"Set\":"@ + p + "}"@)[7 + i]);
        }
        assert(middle =~= p);
    }
}

/// Inside a `Rm` frame, the middle of an encoded record is exactly the
/// serde_json string literal.
proof fn lemma_rm_middle_is_literal(line: Seq<char>, middle: Seq<char>)
    requires
        rm_framed(line),
        middle == line.subrange(6, line.len() - 1),
    ensures
        forall|c: CommandModel| line == spec_encode_command(c) && c is Rm
            ==> middle == json_str_of(c->Rm_key),
        forall|c: CommandModel| line == spec_encode_command(c) ==> c is Rm,
{
    lemma_encoded_is_framed();
    reveal_strlit("{\"Set\":");
    reveal_strlit("{\"Rm\":");
    reveal_strlit("}");
    assert forall|c: CommandModel| line == spec_encode_command(c) implies c is Rm by {
        if c is Put {
            assert(line[2] == 'S');
            assert(rm_framed(line) ==> line.subrange(0, 6)[2] == 'R');
            assert(set_framed(line) && !rm_framed(line));
            assert(line.subrange(0, 6)[2] == line[2]);
        }
    }
    assert forall|c: CommandModel|
        line == spec_encode_command(c) && c is Rm implies middle == json_str_of(c->Rm_key) by {
        let p = json_str_of(c->Rm_key);
        assert(line =~= "{\"Rm\":"@ + p + "}"@);
        assert(middle.len() == p.len());
        assert forall|i: int| 0 <= i < p.len() implies middle[i] == p[i] by {
            assert(middle[i] == line[6 + i]);
            assert(line[6 + i] == ("{\"Rm\":"@ + p + "}"@)[6 + i]);
        }
        assert(middle =~= p);
    }
}

/// The index over a command log: the fold that maps every key to the ordinal
/// of its latest `Set` record, with later `Rm` records as tombstones.
pub open spec fn spec_index(log: Seq<CommandModel>) -> Map<Seq<char>, int>
    decreases log.len(),
{
    if log.len() == 0 {
        Map::empty()
    } else {
        let prev = spec_index(log.drop_last());
        match log.last() {
            CommandModel::Put { key, value } => prev.insert(key, log.len() - 1),
            CommandModel::Rm { key } => prev.remove(key),
        }
    }
}

/// The key-value map a command log denotes: the same fold, keeping values.
pub open spec fn spec_contents(log: Seq<CommandModel>) -> Map<Seq<char>, Seq<char>>
    decreases log.len(),
{
    if log.len() == 0 {
        Map::empty()
    } else {
        let prev = spec_contents(log.drop_last());
        match log.last() {
            CommandModel::Put { key, value } => prev.insert(key, value),
            CommandModel::Rm { key } => prev.remove(key),
        }
    }
}

/// The index and the contents of a log agree: they hold the same keys, the
/// index stays in range, and each indexed ordinal carries the `Set` record
/// whose key and value the maps say it does.
pub proof fn lemma_log_index(log: Seq<CommandModel>)
    ensures
        spec_index(log).dom() == spec_contents(log).dom(),
        spec_index(log).dom().finite(),
        forall|k: Seq<char>| #[trigger] spec_index(log).dom().contains(k) ==> {
            &&& 0 <= spec_index(log)[k] < log.len()
            &&& log[spec_index(log)[k]] == (CommandModel::Put {
                key: k,
                value: spec_contents(log)[k],
            })
        },
    decreases log.len(),
{
    if log.len() == 0 {
        assert(spec_index(log).dom() =~= spec_contents(log).dom());
    } else {
        lemma_log_index(log.drop_last());
        let prev_i = spec_index(log.drop_last());
        let prev_c = spec_contents(log.drop_last());
        assert(spec_index(log).dom() =~= spec_contents(log).dom());
        assert forall|k: Seq<char>| #[trigger] spec_index(log).dom().contains(k) implies {
            &&& 0 <= spec_index(log)[k] < log.len()
            &&& log[spec_index(log)[k]] == (CommandModel::Put {
                key: k,
                value: spec_contents(log)[k],
            })
        } by {
            match log.last() {
                CommandModel::Put { key, value } => {
                    if k != key {
                        assert(prev_i.dom().contains(k));
                        assert(log[spec_index(log)[k]] == log.drop_last()[prev_i[k]]);
                    }
                },
                CommandModel::Rm { key } => {
                    assert(prev_i.dom().contains(k));
                    assert(log[spec_index(log)[k]] == log.drop_last()[prev_i[k]]);
                },
            }
        }
    }
}

/// What a supposed `Set` ordinal yields for a key: the value of the `Set`
/// record standing at `p` under that very key, and nothing for an ordinal
/// out of range, a tombstone, or a record of another key - the shapes that
/// mean corruption when the index points there.
pub open spec fn spec_value_at(log: Seq<CommandModel>, p: int, key: Seq<char>) -> Option<
    Seq<char>,
> {
    if 0 <= p < log.len() {
        match log[p] {
            CommandModel::Put { key: k, value } => if k == key {
                Some(value)
            } else {
                None
            },
            CommandModel::Rm { key: k } => None,
        }
    } else {
        None
    }
}

/// The map an association list denotes: later entries win.
pub open spec fn assoc_map(entries: Seq<(String, usize)>) -> Map<Seq<char>, int>
    decreases entries.len(),
{
    if entries.len() == 0 {
        Map::empty()
    } else {
        assoc_map(entries.drop_last()).insert(entries.last().0@, entries.last().1 as int)
    }
}

/// No two entries of the list bind the same key.
pub open spec fn assoc_unique(entries: Seq<(String, usize)>) -> bool {
    forall|i: int, j: int|
        0 <= i < j < entries.len() ==> (#[trigger] entries[i]).0@ != (#[trigger] entries[j]).0@
}

/// In a duplicate-free list, every entry is its key's binding.
proof fn lemma_assoc_entry(entries: Seq<(String, usize)>, i: int)
    requires
        assoc_unique(entries),
        0 <= i < entries.len(),
    ensures
        assoc_map(entries).dom().contains(entries[i].0@),
        assoc_map(entries)[entries[i].0@] == entries[i].1 as int,
    decreases entries.len(),
{
    if i < entries.len() - 1 {
        lemma_assoc_entry(entries.drop_last(), i);
        assert(entries.drop_last()[i] == entries[i]);
        assert(entries[entries.len() - 1].0@ != entries[i].0@);
    }
}

/// A key bound by no entry is absent from the map.
proof fn lemma_assoc_absent(entries: Seq<(String, usize)>, k: Seq<char>)
    requires
        forall|j: int| 0 <= j < entries.len() ==> (#[trigger] entries[j]).0@ != k,
    ensures
        !assoc_map(entries).dom().contains(k),
    decreases entries.len(),
{
    if entries.len() > 0 {
        lemma_assoc_absent(entries.drop_last(), k);
    }
}

/// Overwriting the one entry of a key rebinds exactly that key.
proof fn lemma_assoc_update(entries: Seq<(String, usize)>, i: int, e: (String, usize))
    requires
        assoc_unique(entries),
        0 <= i < entries.len(),
        entries[i].0@ == e.0@,
    ensures
        assoc_unique(entries.update(i, e)),
        assoc_map(entries.update(i, e)) == assoc_map(entries).insert(e.0@, e.1 as int),
    decreases entries.len(),
{
    let u = entries.update(i, e);
    assert forall|a: int, b: int| 0 <= a < b < u.len() implies (#[trigger] u[a]).0@ != (
    #[trigger] u[b]).0@ by {
        assert(entries[a].0@ != entries[b].0@);
    }
    if i == entries.len() - 1 {
        assert(u.drop_last() =~= entries.drop_last());
        assert(assoc_map(u) =~= assoc_map(entries).insert(e.0@, e.1 as int));
    } else {
        lemma_assoc_update(entries.drop_last(), i, e);
        assert(u.drop_last() =~= entries.drop_last().update(i, e));
        assert(u.last() == entries.last());
        assert(entries.last().0@ != e.0@);
        assert(assoc_map(u) =~= assoc_map(entries).insert(e.0@, e.1 as int));
    }
}

/// Dropping the one entry of a key unbinds exactly that key.
proof fn lemma_assoc_remove(entries: Seq<(String, usize)>, i: int)
    requires
        assoc_unique(entries),
        0 <= i < entries.len(),
    ensures
        assoc_unique(entries.remove(i)),
        assoc_map(entries.remove(i)) == assoc_map(entries).remove(entries[i].0@),
    decreases entries.len(),
{
    let u = entries.remove(i);
    let k = entries[i].0@;
    assert forall|a: int, b: int| 0 <= a < b < u.len() implies (#[trigger] u[a]).0@ != (
    #[trigger] u[b]).0@ by {
        if b < i {
            assert(entries[a].0@ != entries[b].0@);
        } else if a < i {
            assert(entries[a].0@ != entries[b + 1].0@);
        } else {
            assert(entries[a + 1].0@ != entries[b + 1].0@);
        }
    }
    if i == entries.len() - 1 {
        assert(u =~= entries.drop_last());
        assert forall|j: int| 0 <= j < u.len() implies (#[trigger] u[j]).0@ != k by {
            assert(entries[j].0@ != entries[i].0@);
        }
        lemma_assoc_absent(u, k);
        assert(assoc_map(u) =~= assoc_map(entries).remove(k));
    } else {
        lemma_assoc_remove(entries.drop_last(), i);
        assert(u.drop_last() =~= entries.drop_last().remove(i));
        assert(u.last() == entries.last());
        assert(entries.last().0@ != k);
        assert(assoc_map(u) =~= assoc_map(entries).remove(k));
    }
}

/// Find the position of the entry binding `key`, if the list has one.
fn index_find(entries: &Vec<(String, usize)>, key: &str) -> (r: Option<usize>)
    ensures
        match r {
            Some(i) => i < entries@.len() && entries@[i as int].0@ == key@,
            None => forall|j: int| 0 <= j < entries@.len() ==> (#[trigger] entries@[j]).0@ != key@,
        },
{
    let mut i: usize = 0;
    while i < entries.len()
        invariant
            i <= entries@.len(),
            forall|j: int| 0 <= j < i ==> (#[trigger] entries@[j]).0@ != key@,
        decreases entries@.len() - i,
    {
        if str_eq(entries[i].0.as_str(), key) {
            return Some(i);
        }
        i = i + 1;
    }
    None
}

/// Bind `key` to `pos`, replacing its old binding if the list has one.
fn index_put(index: &mut Vec<(String, usize)>, key: &String, pos: usize)
    ensures
        assoc_unique(old(index)@) ==> {
            &&& assoc_unique(final(index)@)
            &&& assoc_map(final(index)@) == assoc_map(old(index)@).insert(key@, pos as int)
        },
{
    match index_find(index, key.as_str()) {
        Some(i) => {
            let ghost oldix = index@;
            index[i] = (key.clone(), pos);
            proof {
                if assoc_unique(oldix) {
                    lemma_assoc_update(oldix, i as int, index@[i as int]);
                }
            }
        },
        None => {
            let ghost oldix = index@;
            index.push((key.clone(), pos));
            proof {
                if assoc_unique(oldix) {
                    assert forall|a: int, b: int| 0 <= a < b < index@.len() implies (
                    #[trigger] index@[a]).0@ != (#[trigger] index@[b]).0@ by {
                        if b < index@.len() - 1 {
                            assert(oldix[a].0@ != oldix[b].0@);
                        } else {
                            assert(oldix[a].0@ != key@);
                        }
                    }
                    assert(index@.drop_last() =~= oldix);
                }
            }
        },
    }
}

/// Unbind `key`; a list without it stays as it is.
fn index_rm(index: &mut Vec<(String, usize)>, key: &str)
    ensures
        assoc_unique(old(index)@) ==> {
            &&& assoc_unique(final(index)@)
            &&& assoc_map(final(index)@) == assoc_map(old(index)@).remove(key@)
        },
{
    match index_find(index, key) {
        Some(i) => {
            let ghost oldix = index@;
            index.remove(i);
            proof {
                if assoc_unique(oldix) {
                    lemma_assoc_remove(oldix, i as int);
                }
            }
        },
        None => {
            proof {
                if assoc_unique(index@) {
                    lemma_assoc_absent(index@, key@);
                    assert(assoc_map(index@) =~= assoc_map(index@).remove(key@));
                }
            }
        },
    }
}

/// The key-value store: an in-memory mirror of the append-only command log,
/// an index from keys to the ordinal of their latest `Set` record, and the
/// ordinal the next append will take.
///
/// The caller that persists the store appends `encode_command` of every
/// record the operations push, in order, one line each.
#[derive(Debug)]
pub struct KvStore {
    /// The command log, one record per ordinal.
    pub records: Vec<Command>,
    /// The index: each live key bound to the ordinal of its latest `Set`.
    pub index: Vec<(String, usize)>,
    /// The ordinal the next append takes: the number of records.
    pub next_pos: usize,
}

impl KvStore {
    /// The log as a sequence of record shapes.
    pub open spec fn log(&self) -> Seq<CommandModel> {
        self.records@.map(|i: int, c: Command| c@)
    }

    /// The map the index denotes.
    pub open spec fn index_map(&self) -> Map<Seq<char>, int> {
        assoc_map(self.index@)
    }

    /// The key-value map the store denotes.
    pub open spec fn contents(&self) -> Map<Seq<char>, Seq<char>> {
        spec_contents(self.log())
    }

    /// Well-formed: the next ordinal counts the records, the index is
    /// duplicate-free, and the index equals the fold over the log rebuilt
    /// from scratch.
    pub open spec fn wf(&self) -> bool {
        &&& self.next_pos == self.records@.len()
        &&& assoc_unique(self.index@)
        &&& self.index_map() == spec_index(self.log())
    }
}

impl KvStore {
    /// Rebuild the index by folding left over a record vector: `Set` records
    /// bind their key to their ordinal, `Rm` records unbind it.
    fn build_index(records: &Vec<Command>) -> (index: Vec<(String, usize)>)
        ensures
            assoc_unique(index@),
            assoc_map(index@) == spec_index(records@.map(|i: int, c: Command| c@)),
    {
        let ghost l = records@.map(|i: int, c: Command| c@);
        let mut index: Vec<(String, usize)> = Vec::new();
        let mut p: usize = 0;
        while p < records.len()
            invariant
                p <= records@.len(),
                l == records@.map(|i: int, c: Command| c@),
                assoc_unique(index@),
                assoc_map(index@) == spec_index(l.take(p as int)),
            decreases records@.len() - p,
        {
            proof {
                assert(l.take(p + 1).drop_last() =~= l.take(p as int));
                assert(l.take(p + 1).last() == l[p as int]);
                assert(l[p as int] == records@[p as int]@);
            }
            match &records[p] {
                Command::Put(k, _v) => {
                    index_put(&mut index, k, p);
                },
                Command::Rm(k) => {
                    index_rm(&mut index, k.as_str());
                },
            }
            p = p + 1;
        }
        proof {
            assert(l.take(p as int) =~= l);
        }
        index
    }

    /// Open a store over the lines of a log, oldest first: decode every line,
    /// fold the index, and count the records.  It opens exactly when every
    /// line reads as a record, onto exactly those records; the first
    /// unreadable line - trailing garbage included - aborts with a `Serde`
    /// error; and a log of encoded records always opens onto them.
    pub fn open(lines: &Vec<String>) -> (r: Result<KvStore, KvsError>)
        ensures
            r is Ok ==> r->Ok_0.wf() && r->Ok_0.log().len() == lines@.len(),
            r is Err ==> r->Err_0.kind is Serde,
            r is Ok <==> (forall|j: int|
                0 <= j < lines@.len() ==> spec_read_command((#[trigger] lines@[j])@) is Some),
            r matches Ok(s) ==> forall|j: int|
                0 <= j < lines@.len() ==> s.log()[j] == spec_read_command(
                    (#[trigger] lines@[j])@,
                )->Some_0,
            forall|cmds: Seq<CommandModel>|
                #![trigger cmds.len()]
                cmds.len() == lines@.len() && (forall|i: int|
                    0 <= i < cmds.len() ==> lines@[i]@ == spec_encode_command(cmds[i]))
                    ==> r is Ok && r->Ok_0.log() == cmds,
    {
        let mut records: Vec<Command> = Vec::new();
        let mut li: usize = 0;
        while li < lines.len()
            invariant
                li <= lines@.len(),
                records@.len() == li,
                forall|j: int|
                    0 <= j < li ==> spec_read_command((#[trigger] lines@[j])@) is Some
                        && records@[j]@ == spec_read_command(lines@[j]@)->Some_0,
                forall|j: int, c: CommandModel|
                    #![trigger records@[j], spec_encode_command(c)]
                    0 <= j < li && lines@[j]@ == spec_encode_command(c) ==> records@[j]@ == c,
            decreases lines@.len() - li,
        {
            match decode_command(lines[li].as_str()) {
                Ok(cmd) => {
                    records.push(cmd);
                },
                Err(e) => {
                    proof {
                        assert(spec_read_command(lines@[li as int]@) is None);
                        assert forall|cmds: Seq<CommandModel>|
                            #![trigger cmds.len()]
                            !(cmds.len() == lines@.len() && (forall|i: int|
                                0 <= i < cmds.len() ==> lines@[i]@ == spec_encode_command(
                                    cmds[i],
                                ))) by {
                            if cmds.len() == lines@.len() && (forall|i: int|
                                0 <= i < cmds.len() ==> lines@[i]@ == spec_encode_command(
                                    cmds[i],
                                )) {
                                assert(lines@[li as int]@ == spec_encode_command(
                                    cmds[li as int],
                                ));
                            }
                        }
                    }
                    return Err(e);
                },
            }
            li = li + 1;
        }
        let index = Self::build_index(&records);
        let n = records.len();
        let store = KvStore { records, index, next_pos: n };
        proof {
            assert forall|cmds: Seq<CommandModel>|
                #![trigger cmds.len()]
                cmds.len() == lines@.len() && (forall|i: int|
                    0 <= i < cmds.len() ==> lines@[i]@ == spec_encode_command(cmds[i]))
                    implies store.log() == cmds by {
                assert forall|j: int| 0 <= j < cmds.len() implies store.log()[j] == cmds[j] by {
                    assert(lines@[j]@ == spec_encode_command(cmds[j]));
                    assert(store.records@[j]@ == cmds[j]);
                }
                assert(store.log() =~= cmds);
            }
        }
        Ok(store)
    }

    /// Bind `key` to `value`: append the `Set` record, rebind the key to its
    /// ordinal, and advance the next ordinal.  In memory this cannot fail.
    pub fn set(&mut self, key: String, value: String) -> (r: Result<(), KvsError>)
        ensures
            r is Ok,
            old(self).wf() ==> {
                &&& final(self).wf()
                &&& final(self).log() == old(self).log().push(CommandModel::Put {
                    key: key@,
                    value: value@,
                })
                &&& final(self).contents() == old(self).contents().insert(key@, value@)
            },
    {
        let pos = self.records.len();
        index_put(&mut self.index, &key, pos);
        let ghost oldlog = self.log();
        self.records.push(Command::Put(key, value));
        self.next_pos = self.records.len();
        proof {
            if old(self).wf() {
                assert(self.log() =~= oldlog.push(self.records@.last()@));
                assert(self.log().drop_last() =~= oldlog);
            }
        }
        Ok(())
    }

    /// Look a key up: through the index to the ordinal, then to the record
    /// at that ordinal, which must be this key's own `Set`.  An ordinal out
    /// of range, a tombstone, or a `Set` of another key is corruption,
    /// answered with an `Index` error whether or not the store is
    /// well-formed; a well-formed store never takes those branches.
    pub fn get(&self, key: String) -> (r: Result<Option<String>, KvsError>)
        ensures
            self.wf() ==> {
                &&& r is Ok
                &&& (r->Ok_0 is Some <==> self.contents().dom().contains(key@))
                &&& (r->Ok_0 is Some ==> r->Ok_0->Some_0@ == self.contents()[key@])
            },
            assoc_unique(self.index@) ==> {
                &&& !self.index_map().dom().contains(key@) ==> r is Ok && r->Ok_0 is None
                &&& self.index_map().dom().contains(key@) ==> (match spec_value_at(
                    self.log(),
                    self.index_map()[key@],
                    key@,
                ) {
                    Some(v) => r is Ok && r->Ok_0 is Some && r->Ok_0->Some_0@ == v,
                    None => r matches Err(e) && e.kind is Index,
                })
            },
    {
        match index_find(&self.index, key.as_str()) {
            None => {
                proof {
                    if assoc_unique(self.index@) {
                        lemma_assoc_absent(self.index@, key@);
                    }
                    if self.wf() {
                        lemma_log_index(self.log());
                    }
                }
                Ok(None)
            },
            Some(i) => {
                let p = self.index[i].1;
                proof {
                    if assoc_unique(self.index@) {
                        lemma_assoc_entry(self.index@, i as int);
                    }
                    if self.wf() {
                        lemma_log_index(self.log());
                    }
                }
                if p >= self.records.len() {
                    Err(KvsError::from(KvsErrorKind::Index))
                } else {
                    match &self.records[p] {
                        Command::Put(k, v) => {
                            if str_eq(k.as_str(), key.as_str()) {
                                Ok(Some(v.clone()))
                            } else {
                                Err(KvsError::from(KvsErrorKind::Index))
                            }
                        },
                        Command::Rm(_k) => Err(KvsError::from(KvsErrorKind::Index)),
                    }
                }
            },
        }
    }

    /// Drop a key: a key absent from the index is a `KeyNotFound` error and
    /// nothing is appended; otherwise the tombstone is appended, the key
    /// unbound, and the next ordinal advanced.
    pub fn remove(&mut self, key: String) -> (r: Result<(), KvsError>)
        ensures
            old(self).wf() ==> {
                &&& final(self).wf()
                &&& (r is Ok <==> old(self).contents().dom().contains(key@))
                &&& (r is Err ==> r->Err_0.kind is KeyNotFound && *final(self) == *old(self))
                &&& (r is Ok ==> final(self).log() == old(self).log().push(CommandModel::Rm {
                    key: key@,
                }) && final(self).contents() == old(self).contents().remove(key@))
            },
    {
        match index_find(&self.index, key.as_str()) {
            None => {
                proof {
                    if self.wf() {
                        lemma_assoc_absent(self.index@, key@);
                        lemma_log_index(self.log());
                    }
                }
                Err(KvsError::from(KvsErrorKind::KeyNotFound))
            },
            Some(_i) => {
                proof {
                    if old(self).wf() {
                        lemma_assoc_entry(self.index@, _i as int);
                        lemma_log_index(self.log());
                    }
                }
                index_rm(&mut self.index, key.as_str());
                let ghost oldlog = self.log();
                self.records.push(Command::Rm(key));
                self.next_pos = self.records.len();
                proof {
                    if old(self).wf() {
                        assert(self.log() =~= oldlog.push(self.records@.last()@));
                        assert(self.log().drop_last() =~= oldlog);
                    }
                }
                Ok(())
            },
        }
    }

    /// The log rendered back to its lines, in ordinal order: what a caller
    /// persists so that `open` recovers this store.
    pub fn encoded_log(&self) -> (lines: Vec<String>)
        ensures
            lines@.len() == self.log().len(),
            forall|i: int|
                0 <= i < lines@.len() ==> (#[trigger] lines@[i])@ == spec_encode_command(
                    self.log()[i],
                ),
    {
        let mut lines: Vec<String> = Vec::new();
        let mut i: usize = 0;
        while i < self.records.len()
            invariant
                i <= self.records@.len(),
                lines@.len() == i,
                forall|j: int|
                    0 <= j < i ==> (#[trigger] lines@[j])@ == spec_encode_command(self.log()[j]),
            decreases self.records@.len() - i,
        {
            lines.push(encode_command(&self.records[i]));
            i = i + 1;
        }
        lines
    }
}

/// Whether the record at ordinal `p` is live: the `Set` record that the
/// index of the whole log holds for its key.
pub open spec fn live_at(log: Seq<CommandModel>, p: int) -> bool {
    match log[p] {
        CommandModel::Put { key, value } => spec_index(log).dom().contains(key) && spec_index(
            log,
        )[key] == p,
        CommandModel::Rm { key } => false,
    }
}

/// The live records among the first `n`, in ordinal order: what compaction
/// keeps of that prefix.
pub open spec fn live_upto(log: Seq<CommandModel>, n: int) -> Seq<CommandModel>
    decreases n,
{
    if n <= 0 {
        Seq::empty()
    } else if live_at(log, n - 1) {
        live_upto(log, n - 1).push(log[n - 1])
    } else {
        live_upto(log, n - 1)
    }
}

/// The keys whose live record lies among the first `n` ordinals.
pub open spec fn live_keys_upto(log: Seq<CommandModel>, n: int) -> Set<Seq<char>> {
    Set::new(
        |k: Seq<char>| spec_index(log).dom().contains(k) && spec_index(log)[k] < n,
    )
}

/// What the live records of a prefix denote: exactly the bindings whose live
/// ordinal lies in the prefix, one record per such key.
proof fn lemma_live_upto(log: Seq<CommandModel>, n: int)
    requires
        0 <= n <= log.len(),
    ensures
        live_keys_upto(log, n).finite(),
        spec_contents(live_upto(log, n)) == spec_contents(log).restrict(live_keys_upto(log, n)),
        live_upto(log, n).len() == live_keys_upto(log, n).len(),
        forall|j: int| 0 <= j < live_upto(log, n).len() ==> live_upto(log, n)[j] is Put,
    decreases n,
{
    broadcast use vstd::set::axiom_set_insert_len;

    lemma_log_index(log);
    vstd::set_lib::lemma_len_subset(live_keys_upto(log, n), spec_index(log).dom());
    if n > 0 {
        lemma_live_upto(log, n - 1);
        let prev = live_upto(log, n - 1);
        let prev_keys = live_keys_upto(log, n - 1);
        if live_at(log, n - 1) {
            let key = match log[n - 1] {
                CommandModel::Put { key, value } => key,
                CommandModel::Rm { key } => key,
            };
            let value = match log[n - 1] {
                CommandModel::Put { key, value } => value,
                CommandModel::Rm { key } => Seq::empty(),
            };
            assert(spec_index(log)[key] == n - 1);
            assert(spec_contents(log)[key] == value);
            assert(!prev_keys.contains(key));
            assert(live_keys_upto(log, n) =~= prev_keys.insert(key)) by {
                assert forall|k: Seq<char>| live_keys_upto(log, n).contains(k)
                    implies prev_keys.insert(key).contains(k) by {
                    if spec_index(log)[k] == n - 1 {
                        assert(log[spec_index(log)[k]] == (CommandModel::Put {
                            key: k,
                            value: spec_contents(log)[k],
                        }));
                        assert(k == key);
                    }
                }
            }
            assert(spec_contents(live_upto(log, n)) == spec_contents(prev).insert(key, value))
                by {
                assert(live_upto(log, n).drop_last() =~= prev);
            }
            assert(spec_contents(log).restrict(prev_keys.insert(key)) =~= spec_contents(
                prev,
            ).insert(key, value));
        } else {
            assert(live_keys_upto(log, n) =~= prev_keys) by {
                assert forall|k: Seq<char>| live_keys_upto(log, n).contains(k)
                    implies prev_keys.contains(k) by {
                    if spec_index(log)[k] == n - 1 {
                        assert(log[n - 1] == (CommandModel::Put {
                            key: k,
                            value: spec_contents(log)[k],
                        }));
                        assert(live_at(log, n - 1));
                    }
                }
            }
        }
    } else {
        assert(live_keys_upto(log, 0) =~= Set::<Seq<char>>::empty());
        assert(spec_contents(log).restrict(live_keys_upto(log, 0)) =~= Map::<
            Seq<char>,
            Seq<char>,
        >::empty());
    }
}

/// Over the whole log, the live records denote the whole contents, and
/// number exactly its keys.
proof fn lemma_live_full(log: Seq<CommandModel>)
    ensures
        spec_contents(live_upto(log, log.len() as int)) == spec_contents(log),
        live_upto(log, log.len() as int).len() == spec_contents(log).dom().len(),
        forall|j: int|
            0 <= j < live_upto(log, log.len() as int).len() ==> live_upto(
                log,
                log.len() as int,
            )[j] is Put,
{
    lemma_log_index(log);
    lemma_live_upto(log, log.len() as int);
    assert(live_keys_upto(log, log.len() as int) =~= spec_index(log).dom());
    assert(spec_contents(log).restrict(spec_index(log).dom()) =~= spec_contents(log));
}

impl KvStore {
    /// Compact the log: keep only the record each live key is indexed at, in
    /// ascending ordinal order, and rebuild the index over the survivors.
    /// What every key reads is unchanged, and the new log holds exactly one
    /// `Set` record per live key.
    pub fn slink(&mut self) -> (r: Result<(), KvsError>)
        ensures
            r is Ok,
            old(self).wf() ==> {
                &&& final(self).wf()
                &&& final(self).contents() == old(self).contents()
                &&& final(self).log().len() == old(self).contents().dom().len()
                &&& forall|j: int|
                    0 <= j < final(self).log().len() ==> final(self).log()[j] is Put
            },
    {
        let ghost l = self.log();
        let mut kept: Vec<Command> = Vec::new();
        let mut p: usize = 0;
        while p < self.records.len()
            invariant
                p <= self.records@.len(),
                *self == *old(self),
                l == self.log(),
                old(self).wf() ==> kept@.map(|i: int, c: Command| c@) == live_upto(l, p as int),
            decreases self.records@.len() - p,
        {
            let keep: bool = match &self.records[p] {
                Command::Put(k, _v) => {
                    match index_find(&self.index, k.as_str()) {
                        Some(i) => {
                            proof {
                                if old(self).wf() {
                                    lemma_assoc_entry(self.index@, i as int);
                                }
                            }
                            self.index[i].1 == p
                        },
                        None => {
                            proof {
                                if old(self).wf() {
                                    lemma_assoc_absent(self.index@, self.records@[p as int]->Put_0@);
                                }
                            }
                            false
                        },
                    }
                },
                Command::Rm(_k) => false,
            };
            proof {
                if old(self).wf() {
                    assert(keep == live_at(l, p as int));
                }
            }
            let ghost prev_kept = kept@;
            if keep {
                kept.push(self.records[p].clone());
            }
            proof {
                if old(self).wf() {
                    if keep {
                        assert(kept@.map(|i: int, c: Command| c@) =~= prev_kept.map(
                            |i: int, c: Command| c@,
                        ).push(l[p as int]));
                    }
                }
            }
            p = p + 1;
        }
        let index = Self::build_index(&kept);
        let n = kept.len();
        self.records = kept;
        self.index = index;
        self.next_pos = n;
        proof {
            if old(self).wf() {
                lemma_live_full(l);
            }
        }
        Ok(())
    }
}

/// A fresh write reads back at once: appending `Set(key, value)` makes the
/// contents hold `value` at `key`, appending `Rm(key)` makes them hold
/// nothing there, and no other key moves.
pub proof fn lemma_fresh_write_reads_back(log: Seq<CommandModel>, key: Seq<char>, value: Seq<char>)
    ensures
        spec_contents(log.push(CommandModel::Put { key, value })) == spec_contents(log).insert(
            key,
            value,
        ),
        spec_contents(log.push(CommandModel::Rm { key })) == spec_contents(log).remove(key),
        spec_contents(log.push(CommandModel::Put { key, value })).dom().contains(key),
        spec_contents(log.push(CommandModel::Put { key, value }))[key] == value,
        !spec_contents(log.push(CommandModel::Rm { key })).dom().contains(key),
{
    assert(log.push(CommandModel::Put { key, value }).drop_last() =~= log);
    assert(log.push(CommandModel::Rm { key }).drop_last() =~= log);
}

/// Recovery is lossless: a well-formed store is determined by its log, so
/// two stores over the same command log index and read identically.
pub proof fn lemma_state_determined_by_log(a: KvStore, b: KvStore)
    requires
        a.wf(),
        b.wf(),
        a.log() == b.log(),
    ensures
        a.index_map() == b.index_map(),
        a.contents() == b.contents(),
{
}

/// Distinct fresh keys accumulate: a `Set` of a key the contents do not yet
/// hold grows the key count by exactly one.
pub proof fn lemma_fresh_key_grows(log: Seq<CommandModel>, key: Seq<char>, value: Seq<char>)
    requires
        !spec_contents(log).dom().contains(key),
    ensures
        spec_contents(log.push(CommandModel::Put { key, value })).dom().len() == spec_contents(
            log,
        ).dom().len() + 1,
{
    broadcast use vstd::set::axiom_set_insert_len;

    lemma_log_index(log);
    lemma_fresh_write_reads_back(log, key, value);
    assert(spec_contents(log.push(CommandModel::Put { key, value })).dom() =~= spec_contents(
        log,
    ).dom().insert(key));
}

/// The key a record speaks of, whichever shape it has.
pub open spec fn key_of(c: CommandModel) -> Seq<char> {
    match c {
        CommandModel::Put { key, value } => key,
        CommandModel::Rm { key } => key,
    }
}

/// Every `Set` record the index does not point at is superseded: a later
/// record for the same key stands in the log.
pub proof fn lemma_stale_records_superseded(log: Seq<CommandModel>, p: int)
    requires
        0 <= p < log.len(),
        log[p] is Put,
        !(spec_index(log).dom().contains(key_of(log[p])) && spec_index(log)[key_of(log[p])] == p),
    ensures
        exists|q: int| p < q < log.len() && key_of(#[trigger] log[q]) == key_of(log[p]),
    decreases log.len(),
{
    let k = key_of(log[p]);
    if p == log.len() - 1 {
        assert(spec_index(log) == spec_index(log.drop_last()).insert(k, p));
    } else {
        let last = log.last();
        if key_of(last) == k {
            assert(p < log.len() - 1 < log.len() && key_of(log[log.len() - 1]) == k);
        } else {
            let prev = log.drop_last();
            assert(prev[p] == log[p]);
            assert(spec_index(log).dom().contains(k) <==> spec_index(prev).dom().contains(k));
            assert(spec_index(log).dom().contains(k) ==> spec_index(log)[k] == spec_index(
                prev,
            )[k]);
            lemma_stale_records_superseded(prev, p);
            let q = choose|q: int| p < q < prev.len() && key_of(#[trigger] prev[q]) == k;
            assert(p < q < log.len() && key_of(log[q]) == k);
        }
    }
}

/// The invariant behind every operation, stated on its own: in a
/// well-formed store the in-memory index equals the fold over the command
/// log rebuilt from scratch.  Each operation's contract keeps the store
/// well-formed, so this holds after any sequence of them.
pub proof fn lemma_index_is_log_fold(s: KvStore)
    requires
        s.wf(),
    ensures
        s.index_map() == spec_index(s.log()),
        s.next_pos == s.log().len(),
{
}

/// A run of `Set` records with pairwise distinct keys denotes exactly those
/// bindings: the store holds one key per record, each reading the value the
/// record wrote.
pub proof fn lemma_distinct_writes(log: Seq<CommandModel>)
    requires
        forall|i: int| 0 <= i < log.len() ==> (#[trigger] log[i]) is Put,
        forall|i: int, j: int|
            0 <= i < j < log.len() ==> key_of(#[trigger] log[i]) != key_of(#[trigger] log[j]),
    ensures
        spec_contents(log).dom().len() == log.len(),
        forall|i: int|
            0 <= i < log.len() ==> spec_contents(log).dom().contains(key_of(#[trigger] log[i]))
                && spec_contents(log)[key_of(log[i])] == log[i]->Put_value,
    decreases log.len(),
{
    broadcast use vstd::set::axiom_set_insert_len;

    if log.len() > 0 {
        let prev = log.drop_last();
        assert(forall|i: int| 0 <= i < prev.len() ==> (#[trigger] prev[i]) == log[i]);
        lemma_distinct_writes(prev);
        lemma_log_index(prev);
        let last = log.last();
        let k = key_of(last);
        assert(!spec_contents(prev).dom().contains(k)) by {
            if spec_contents(prev).dom().contains(k) {
                let i = spec_index(prev)[k];
                assert(prev[i] == (CommandModel::Put { key: k, value: spec_contents(prev)[k] }));
                assert(key_of(log[i]) != key_of(log[log.len() - 1]));
            }
        }
        assert(spec_contents(log) == spec_contents(prev).insert(k, last->Put_value));
        assert(spec_contents(log).dom() =~= spec_contents(prev).dom().insert(k));
        assert forall|i: int|
            0 <= i < log.len() implies spec_contents(log).dom().contains(key_of(
            #[trigger] log[i],
        )) && spec_contents(log)[key_of(log[i])] == log[i]->Put_value by {
            if i < log.len() - 1 {
                assert(prev[i] == log[i]);
                assert(key_of(log[i]) != k);
                assert(spec_contents(prev).dom().contains(key_of(prev[i])));
            }
        }
    }
}

} // verus!
