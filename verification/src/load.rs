//! Parsing of the client's text inputs: configuration files of lines and
//! `key | value` pairs, the static mapping directory, and the post-parse
//! fixes applied to raw mission logs.
use vstd::prelude::*;
use vstd::string::{StrSliceExecFns, StringExecFns};
use crate::kmap::KMap;
use crate::types::{Mapping, StrLookup, StrSet};

verus! {

/// What can go wrong while loading client input.
#[derive(Debug)]
pub enum LoadError {
    IOError(String),
    ParseError(String),
}

/// A whitespace character for trimming purposes.
pub open spec fn spec_is_ws(c: char) -> bool {
    c == ' ' || c == '\t' || c == '\r'
}

fn is_ws(c: char) -> (r: bool)
    ensures
        r == spec_is_ws(c),
{
    c == ' ' || c == '\t' || c == '\r'
}

/// The sequence with leading and trailing whitespace removed.
pub open spec fn spec_trim(s: Seq<char>) -> Seq<char>
    decreases s.len(),
{
    if s.len() == 0 {
        s
    } else if spec_is_ws(s[0]) {
        spec_trim(s.skip(1))
    } else if spec_is_ws(s.last()) {
        spec_trim(s.drop_last())
    } else {
        s
    }
}

/// Trim a character vector.
fn trim_chars(s: &Vec<char>) -> (r: Vec<char>)
    ensures
        r@ == spec_trim(s@),
    decreases s@.len(),
{
    let n = s.len();
    if n == 0 {
        Vec::new()
    } else if is_ws(s[0]) {
        let mut rest: Vec<char> = Vec::new();
        let mut i: usize = 1;
        while i < n
            invariant
                n == s@.len(),
                1 <= i <= n,
                rest@ == s@.skip(1).take(i as int - 1),
            decreases n - i,
        {
            rest.push(s[i]);
            proof {
                assert(rest@ =~= s@.skip(1).take(i as int));
            }
            i += 1;
        }
        proof {
            assert(s@.skip(1).take(n as int - 1) =~= s@.skip(1));
        }
        trim_chars(&rest)
    } else if is_ws(s[n - 1]) {
        let mut rest: Vec<char> = Vec::new();
        let mut i: usize = 0;
        while i < n - 1
            invariant
                n == s@.len(),
                n >= 1,
                0 <= i <= n - 1,
                rest@ == s@.take(i as int),
            decreases n - i,
        {
            rest.push(s[i]);
            i += 1;
        }
        proof {
            assert(s@.take(n as int - 1) =~= s@.drop_last());
            assert(!spec_is_ws(s@[0]));
            assert(spec_is_ws(s@.last()));
        }
        trim_chars(&rest)
    } else {
        let mut copy: Vec<char> = Vec::new();
        let mut i: usize = 0;
        while i < n
            invariant
                n == s@.len(),
                0 <= i <= n,
                copy@ == s@.take(i as int),
            decreases n - i,
        {
            copy.push(s[i]);
            i += 1;
        }
        proof {
            assert(s@.take(n as int) =~= s@);
        }
        copy
    }
}

/// The characters of a string slice.
pub(crate) fn chars_of(s: &str) -> (r: Vec<char>)
    ensures
        r@ == s@,
{
    let n = s.unicode_len();
    let mut v: Vec<char> = Vec::new();
    let mut i: usize = 0;
    while i < n
        invariant
            n == s@.len(),
            0 <= i <= n,
            v@ == s@.take(i as int),
        decreases n - i,
    {
        let c = s.get_char(i);
        v.push(c);
        proof {
            assert(v@ =~= s@.take(i as int + 1));
        }
        i += 1;
    }
    proof {
        assert(s@.take(n as int) =~= s@);
    }
    v
}

/// A string owning the given characters.
fn string_of(v: &Vec<char>) -> (r: String)
    ensures
        r@ == v@,
{
    let n = v.len();
    let mut s = String::new();
    let mut i: usize = 0;
    while i < n
        invariant
            n == v@.len(),
            0 <= i <= n,
            s@ == v@.take(i as int),
        decreases n - i,
    {
        s.push(v[i]);
        proof {
            assert(s@ =~= v@.take(i as int + 1));
        }
        i += 1;
    }
    proof {
        assert(v@.take(n as int) =~= v@);
    }
    s
}

/// The index of the first occurrence of `c` at or after `from`, or the
/// length.
pub open spec fn spec_find(s: Seq<char>, c: char, from: int) -> int
    decreases s.len() - from,
{
    if from < 0 || from >= s.len() {
        s.len() as int
    } else if s[from] == c {
        from
    } else {
        spec_find(s, c, from + 1)
    }
}

fn find_char(s: &Vec<char>, c: char, from: usize) -> (r: usize)
    requires
        from <= s@.len(),
    ensures
        r as int == spec_find(s@, c, from as int),
        from <= r <= s@.len(),
    decreases s@.len() - from,
{
    if from >= s.len() {
        s.len()
    } else if s[from] == c {
        from
    } else {
        find_char(s, c, from + 1)
    }
}

/// The lines of a character sequence, split on newlines, with the final
/// line dropped when the text ends in a newline.
pub open spec fn spec_lines(s: Seq<char>) -> Seq<Seq<char>>
    decreases s.len(),
    via spec_lines_decreases
{
    if s.len() == 0 {
        Seq::empty()
    } else {
        let i = spec_find(s, '\n', 0);
        if i == s.len() {
            seq![s]
        } else {
            seq![s.take(i)] + spec_lines(s.skip(i + 1))
        }
    }
}

#[via_fn]
proof fn spec_lines_decreases(s: Seq<char>) {
    if s.len() > 0 {
        lemma_find_bounds(s, '\n', 0);
    }
}

proof fn lemma_find_bounds(s: Seq<char>, c: char, from: int)
    requires
        0 <= from <= s.len(),
    ensures
        from <= spec_find(s, c, from) <= s.len(),
    decreases s.len() - from,
{
    if from < s.len() && s[from] != c {
        lemma_find_bounds(s, c, from + 1);
    }
}

/// Split a character vector into its lines.
fn lines_of(s: &Vec<char>) -> (r: Vec<Vec<char>>)
    ensures
        r@.len() == spec_lines(s@).len(),
        forall|i: int| 0 <= i < r@.len() ==> (#[trigger] r@[i])@ == spec_lines(s@)[i],
    decreases s@.len(),
{
    let n = s.len();
    if n == 0 {
        Vec::new()
    } else {
        proof {
            lemma_find_bounds(s@, '\n', 0);
        }
        let i = find_char(s, '\n', 0);
        let mut head: Vec<char> = Vec::new();
        let mut t: usize = 0;
        while t < i
            invariant
                n == s@.len(),
                i <= n,
                0 <= t <= i,
                head@ == s@.take(t as int),
            decreases i - t,
        {
            head.push(s[t]);
            t += 1;
        }
        if i == n {
            let mut out: Vec<Vec<char>> = Vec::new();
            out.push(head);
            proof {
                assert(s@.take(i as int) =~= s@);
                assert(out@.len() == 1);
            }
            out
        } else {
            let mut rest: Vec<char> = Vec::new();
            let mut t: usize = i + 1;
            while t < n
                invariant
                    n == s@.len(),
                    i < n,
                    i + 1 <= t <= n,
                    rest@ == s@.skip(i as int + 1).take(t as int - i - 1),
                decreases n - t,
            {
                rest.push(s[t]);
                proof {
                    assert(rest@ =~= s@.skip(i as int + 1).take(t as int - i));
                }
                t += 1;
            }
            proof {
                assert(s@.skip(i as int + 1).take(n as int - i - 1) =~= s@.skip(i as int + 1));
            }
            let tail = lines_of(&rest);
            let mut out: Vec<Vec<char>> = Vec::new();
            out.push(head);
            let mut t: usize = 0;
            let tn = tail.len();
            while t < tn
                invariant
                    tn == tail@.len(),
                    0 <= t <= tn,
                    out@.len() == t + 1,
                    out@[0]@ == s@.take(i as int),
                    forall|m: int| 1 <= m < t + 1 ==> (#[trigger] out@[m])@ == tail@[m - 1]@,
                    tail@.len() == spec_lines(s@.skip(i as int + 1)).len(),
                    forall|m: int|
                        0 <= m < tail@.len() ==> (#[trigger] tail@[m])@ == spec_lines(
                            s@.skip(i as int + 1),
                        )[m],
                decreases tn - t,
            {
                let mut line: Vec<char> = Vec::new();
                let ln = tail[t].len();
                let mut w: usize = 0;
                while w < ln
                    invariant
                        tn == tail@.len(),
                        t < tn,
                        ln == tail@[t as int]@.len(),
                        0 <= w <= ln,
                        line@ == tail@[t as int]@.take(w as int),
                    decreases ln - w,
                {
                    line.push(tail[t][w]);
                    w += 1;
                }
                proof {
                    assert(tail@[t as int]@.take(ln as int) =~= tail@[t as int]@);
                }
                out.push(line);
                t += 1;
            }
            proof {
                assert(spec_lines(s@).len() == 1 + spec_lines(s@.skip(i as int + 1)).len());
                assert forall|m: int|
                    0 <= m < out@.len() implies (#[trigger] out@[m])@ == spec_lines(s@)[m] by {
                    if m == 0 {
                    } else {
                        assert(out@[m]@ == tail@[m - 1]@);
                    }
                }
            }
            out
        }
    }
}

/// The trimmed, kept lines of a configuration file: comments and blank
/// lines are dropped.
pub open spec fn spec_config_list(lines: Seq<Seq<char>>) -> Seq<Seq<char>>
    decreases lines.len(),
{
    if lines.len() == 0 {
        Seq::empty()
    } else {
        let prev = spec_config_list(lines.drop_last());
        let t = spec_trim(lines.last());
        if t.len() == 0 || t[0] == '#' {
            prev
        } else {
            prev.push(t)
        }
    }
}

/// Parse a configuration file of plain lines: one entry per non-blank,
/// non-comment line, whitespace trimmed.
pub fn parse_config_file_list(content: &str) -> (r: Vec<String>)
    ensures
        r@.len() == spec_config_list(spec_lines(content@)).len(),
        forall|i: int|
            0 <= i < r@.len() ==> (#[trigger] r@[i])@ == spec_config_list(spec_lines(content@))[i],
{
    let chars = chars_of(content);
    let lines = lines_of(&chars);
    let n = lines.len();
    let mut out: Vec<String> = Vec::new();
    let mut i: usize = 0;
    while i < n
        invariant
            n == lines@.len(),
            lines@.len() == spec_lines(chars@).len(),
            forall|m: int| 0 <= m < n ==> (#[trigger] lines@[m])@ == spec_lines(chars@)[m],
            chars@ == content@,
            0 <= i <= n,
            out@.len() == spec_config_list(spec_lines(chars@).take(i as int)).len(),
            forall|m: int|
                0 <= m < out@.len() ==> (#[trigger] out@[m])@ == spec_config_list(
                    spec_lines(chars@).take(i as int),
                )[m],
        decreases n - i,
    {
        proof {
            assert(spec_lines(chars@).take(i as int + 1).drop_last() =~= spec_lines(chars@).take(
                i as int,
            ));
            assert(spec_lines(chars@).take(i as int + 1).last() == spec_lines(chars@)[i as int]);
        }
        let t = trim_chars(&lines[i]);
        if t.len() > 0 {
            if t[0] != '#' {
                out.push(string_of(&t));
            }
        }
        i += 1;
    }
    proof {
        assert(spec_lines(chars@).take(n as int) =~= spec_lines(chars@));
    }
    out
}

/// The `key | value` split of a configuration line: the first bar splits,
/// both halves trimmed; a line without a bar is malformed.
pub open spec fn spec_pair_of(line: Seq<char>) -> Option<(Seq<char>, Seq<char>)> {
    let i = spec_find(line, '|', 0);
    if i == line.len() {
        None
    } else {
        Some((spec_trim(line.take(i)), spec_trim(line.skip(i + 1))))
    }
}

/// The mapping the kept lines build; a later line for the same key wins.
pub open spec fn spec_config_map(lines: Seq<Seq<char>>, k: Seq<char>) -> Option<Seq<char>>
    decreases lines.len(),
{
    if lines.len() == 0 {
        None
    } else {
        let prev = spec_config_map(lines.drop_last(), k);
        match spec_pair_of(lines.last()) {
            Some(pair) => if pair.0 == k {
                Some(pair.1)
            } else {
                prev
            },
            None => prev,
        }
    }
}

/// Some kept line has no bar.
pub open spec fn spec_config_map_bad(lines: Seq<Seq<char>>) -> bool {
    exists|i: int| 0 <= i < lines.len() && spec_pair_of(#[trigger] lines[i]) is None
}

/// Parse a configuration file of `key | value` lines.
pub fn parse_config_file_map(content: &str) -> (r: Result<StrLookup, LoadError>)
    ensures
        ({
            let kept = spec_config_list(spec_lines(content@));
            match r {
                Ok(m) => m.wf() && !spec_config_map_bad(kept) && forall|k: Seq<char>|
                    match #[trigger] m.spec_get(k) {
                        Some(v) => spec_config_map(kept, k) == Some(v@),
                        None => spec_config_map(kept, k) is None,
                    },
                Err(_) => spec_config_map_bad(kept),
            }
        }),
{
    let lines = parse_config_file_list(content);
    let ghost kept = spec_config_list(spec_lines(content@));
    let n = lines.len();
    let mut out: StrLookup = KMap::empty();
    let mut i: usize = 0;
    while i < n
        invariant
            kept == spec_config_list(spec_lines(content@)),
            n == lines@.len(),
            lines@.len() == kept.len(),
            forall|m: int| 0 <= m < n ==> (#[trigger] lines@[m])@ == kept[m],
            0 <= i <= n,
            out.wf(),
            forall|m: int| 0 <= m < i ==> spec_pair_of(kept[m]) is Some,
            forall|k: Seq<char>|
                match #[trigger] out.spec_get(k) {
                    Some(v) => spec_config_map(kept.take(i as int), k) == Some(v@),
                    None => spec_config_map(kept.take(i as int), k) is None,
                },
        decreases n - i,
    {
        proof {
            assert(kept.take(i as int + 1).drop_last() =~= kept.take(i as int));
            assert(kept.take(i as int + 1).last() == kept[i as int]);
        }
        let chars = chars_of(&lines[i]);
        proof {
            lemma_find_bounds(chars@, '|', 0);
        }
        let p = find_char(&chars, '|', 0);
        if p == chars.len() {
            proof {
                assert(spec_pair_of(kept[i as int]) is None);
                assert(spec_config_map_bad(kept));
            }
            return Err(LoadError::ParseError("a mapping line has no separator".to_owned()));
        }
        let mut keyc: Vec<char> = Vec::new();
        let mut t: usize = 0;
        while t < p
            invariant
                p <= chars@.len(),
                0 <= t <= p,
                keyc@ == chars@.take(t as int),
            decreases p - t,
        {
            keyc.push(chars[t]);
            t += 1;
        }
        let mut valc: Vec<char> = Vec::new();
        let mut t: usize = p + 1;
        let cn = chars.len();
        while t < cn
            invariant
                cn == chars@.len(),
                p < cn,
                p + 1 <= t <= cn,
                valc@ == chars@.skip(p as int + 1).take(t as int - p - 1),
            decreases cn - t,
        {
            valc.push(chars[t]);
            proof {
                assert(valc@ =~= chars@.skip(p as int + 1).take(t as int - p));
            }
            t += 1;
        }
        proof {
            assert(chars@.skip(p as int + 1).take(cn as int - p - 1) =~= chars@.skip(p as int + 1));
            assert(chars@.take(p as int) =~= keyc@);
        }
        let key = string_of(&trim_chars(&keyc));
        let val = string_of(&trim_chars(&valc));
        proof {
            assert(spec_pair_of(kept[i as int]) == Some((key@, val@)));
            out.lemma_get_is_contains(key@);
        }
        out.set(&key, val);
        proof {
            assert forall|k: Seq<char>|
                match #[trigger] out.spec_get(k) {
                    Some(v) => spec_config_map(kept.take(i as int + 1), k) == Some(v@),
                    None => spec_config_map(kept.take(i as int + 1), k) is None,
                } by {
                if k != key@ {
                }
            }
        }
        i += 1;
    }
    proof {
        assert(kept.take(n as int) =~= kept);
        assert(!spec_config_map_bad(kept)) by {
            if spec_config_map_bad(kept) {
                let m = choose|m: int| 0 <= m < kept.len() && spec_pair_of(#[trigger] kept[m]) is None;
            }
        }
    }
    Ok(out)
}

/// The set of entries of a list file, as a unit-valued map.
fn list_to_set(items: &Vec<String>) -> (r: StrSet)
    ensures
        r.wf(),
        forall|k: Seq<char>|
            #[trigger] r.contains_key(k) <==> exists|i: int|
                0 <= i < items@.len() && (#[trigger] items@[i])@ == k,
{
    let n = items.len();
    let mut out: StrSet = KMap::empty();
    let mut i: usize = 0;
    while i < n
        invariant
            n == items@.len(),
            0 <= i <= n,
            out.wf(),
            forall|k: Seq<char>|
                #[trigger] out.contains_key(k) <==> exists|m: int|
                    0 <= m < i && (#[trigger] items@[m])@ == k,
        decreases n - i,
    {
        let ghost pre = out;
        out.set(&items[i], ());
        proof {
            out.lemma_get_is_contains(items@[i as int]@);
            assert forall|k: Seq<char>|
                #[trigger] out.contains_key(k) <==> (exists|m: int|
                    0 <= m < i + 1 && (#[trigger] items@[m])@ == k) by {
                pre.lemma_contains_iff_key_seq(k);
                out.lemma_contains_iff_key_seq(k);
                if pre.key_seq().contains(k) {
                    let t = choose|t: int| 0 <= t < pre.key_seq().len() && pre.key_seq()[t] == k;
                    assert(out.key_seq()[t] == k);
                }
                if out.key_seq().contains(k) {
                    let t = choose|t: int| 0 <= t < out.key_seq().len() && out.key_seq()[t] == k;
                    if t < pre.key_seq().len() {
                        assert(pre.key_seq()[t] == k);
                    }
                }
                if k == items@[i as int]@ && !pre.contains_key(k) {
                    assert(out.key_seq()[pre.spec_len() as int] == k);
                }
                if exists|m: int| 0 <= m < i && (#[trigger] items@[m])@ == k {
                    let m = choose|m: int| 0 <= m < i && (#[trigger] items@[m])@ == k;
                    assert(0 <= m < i + 1 && items@[m]@ == k);
                } else {
                    if exists|m: int| 0 <= m < i + 1 && (#[trigger] items@[m])@ == k {
                        let m = choose|m: int| 0 <= m < i + 1 && (#[trigger] items@[m])@ == k;
                        if m < i {
                            assert(items@[m]@ == k);
                        }
                    }
                }
            }
        }
        i += 1;
    }
    out
}

/// The text of the ten files of a mapping directory.
pub struct MappingSource {
    pub character: String,
    pub entity: String,
    pub entity_blacklist: String,
    pub entity_combine: String,
    pub mission_type: String,
    pub resource: String,
    pub weapon: String,
    pub weapon_combine: String,
    pub weapon_character: String,
    pub scout_special: String,
}

/// The table a `key | value` configuration text defines.
pub open spec fn spec_table_of(m: StrLookup, content: Seq<char>) -> bool {
    &&& m.wf()
    &&& forall|k: Seq<char>|
        match #[trigger] m.spec_get(k) {
            Some(v) => spec_config_map(spec_config_list(spec_lines(content)), k) == Some(v@),
            None => spec_config_map(spec_config_list(spec_lines(content)), k) is None,
        }
}

/// The set a list configuration text defines.
pub open spec fn spec_set_of(s: StrSet, content: Seq<char>) -> bool {
    &&& s.wf()
    &&& forall|k: Seq<char>|
        #[trigger] s.contains_key(k) <==> spec_config_list(spec_lines(content)).contains(k)
}

/// Assemble the static mapping tables from the directory's file contents.
/// Fails, handing back no partial mapping, exactly when one of the eight
/// `key | value` files holds a kept line without a separator.
pub fn load_mapping_from_file(source: &MappingSource) -> (r: Result<Mapping, LoadError>)
    ensures
        match r {
            Ok(m) => {
                &&& spec_table_of(m.character_mapping, source.character@)
                &&& spec_table_of(m.entity_mapping, source.entity@)
                &&& spec_set_of(m.entity_blacklist_set, source.entity_blacklist@)
                &&& spec_table_of(m.entity_combine, source.entity_combine@)
                &&& spec_table_of(m.mission_type_mapping, source.mission_type@)
                &&& spec_table_of(m.resource_mapping, source.resource@)
                &&& spec_table_of(m.weapon_mapping, source.weapon@)
                &&& spec_table_of(m.weapon_combine, source.weapon_combine@)
                &&& spec_table_of(m.weapon_character, source.weapon_character@)
                &&& spec_set_of(m.scout_special_player_set, source.scout_special@)
                &&& m.wf()
            },
            Err(_) => {
                ||| spec_config_map_bad(spec_config_list(spec_lines(source.character@)))
                ||| spec_config_map_bad(spec_config_list(spec_lines(source.entity@)))
                ||| spec_config_map_bad(spec_config_list(spec_lines(source.entity_combine@)))
                ||| spec_config_map_bad(spec_config_list(spec_lines(source.mission_type@)))
                ||| spec_config_map_bad(spec_config_list(spec_lines(source.resource@)))
                ||| spec_config_map_bad(spec_config_list(spec_lines(source.weapon@)))
                ||| spec_config_map_bad(spec_config_list(spec_lines(source.weapon_combine@)))
                ||| spec_config_map_bad(spec_config_list(spec_lines(source.weapon_character@)))
            },
        },
        r is Err <==> {
            ||| spec_config_map_bad(spec_config_list(spec_lines(source.character@)))
            ||| spec_config_map_bad(spec_config_list(spec_lines(source.entity@)))
            ||| spec_config_map_bad(spec_config_list(spec_lines(source.entity_combine@)))
            ||| spec_config_map_bad(spec_config_list(spec_lines(source.mission_type@)))
            ||| spec_config_map_bad(spec_config_list(spec_lines(source.resource@)))
            ||| spec_config_map_bad(spec_config_list(spec_lines(source.weapon@)))
            ||| spec_config_map_bad(spec_config_list(spec_lines(source.weapon_combine@)))
            ||| spec_config_map_bad(spec_config_list(spec_lines(source.weapon_character@)))
        },
{
    let character_mapping = match parse_config_file_map(source.character.as_str()) {
        Ok(m) => m,
        Err(e) => {
            return Err(e);
        },
    };
    let entity_mapping = match parse_config_file_map(source.entity.as_str()) {
        Ok(m) => m,
        Err(e) => {
            return Err(e);
        },
    };
    let entity_blacklist = parse_config_file_list(source.entity_blacklist.as_str());
    let entity_combine = match parse_config_file_map(source.entity_combine.as_str()) {
        Ok(m) => m,
        Err(e) => {
            return Err(e);
        },
    };
    let mission_type_mapping = match parse_config_file_map(source.mission_type.as_str()) {
        Ok(m) => m,
        Err(e) => {
            return Err(e);
        },
    };
    let resource_mapping = match parse_config_file_map(source.resource.as_str()) {
        Ok(m) => m,
        Err(e) => {
            return Err(e);
        },
    };
    let weapon_mapping = match parse_config_file_map(source.weapon.as_str()) {
        Ok(m) => m,
        Err(e) => {
            return Err(e);
        },
    };
    let weapon_combine = match parse_config_file_map(source.weapon_combine.as_str()) {
        Ok(m) => m,
        Err(e) => {
            return Err(e);
        },
    };
    let weapon_character = match parse_config_file_map(source.weapon_character.as_str()) {
        Ok(m) => m,
        Err(e) => {
            return Err(e);
        },
    };
    let scout_special = parse_config_file_list(source.scout_special.as_str());
    let entity_blacklist_set = list_to_set(&entity_blacklist);
    let scout_special_player_set = list_to_set(&scout_special);
    proof {
        assert forall|k: Seq<char>|
            #[trigger] entity_blacklist_set.contains_key(k) <==> spec_config_list(
                spec_lines(source.entity_blacklist@),
            ).contains(k) by {
            let kept = spec_config_list(spec_lines(source.entity_blacklist@));
            if entity_blacklist_set.contains_key(k) {
                let m = choose|m: int|
                    0 <= m < entity_blacklist@.len() && (#[trigger] entity_blacklist@[m])@ == k;
                assert(kept[m] == k);
            }
            if kept.contains(k) {
                let m = choose|m: int| 0 <= m < kept.len() && kept[m] == k;
                assert(entity_blacklist@[m]@ == k);
            }
        }
        assert forall|k: Seq<char>|
            #[trigger] scout_special_player_set.contains_key(k) <==> spec_config_list(
                spec_lines(source.scout_special@),
            ).contains(k) by {
            let kept = spec_config_list(spec_lines(source.scout_special@));
            if scout_special_player_set.contains_key(k) {
                let m = choose|m: int|
                    0 <= m < scout_special@.len() && (#[trigger] scout_special@[m])@ == k;
                assert(kept[m] == k);
            }
            if kept.contains(k) {
                let m = choose|m: int| 0 <= m < kept.len() && kept[m] == k;
                assert(scout_special@[m]@ == k);
            }
        }
    }
    Ok(
        Mapping {
            character_mapping,
            entity_mapping,
            entity_blacklist_set,
            entity_combine,
            mission_type_mapping,
            resource_mapping,
            weapon_mapping,
            weapon_combine,
            weapon_character,
            scout_special_player_set,
        },
    )
}

/// The non-blank lines of one log segment, kept verbatim, ready for their
/// record parsers.
pub open spec fn spec_segment_lines(lines: Seq<Seq<char>>) -> Seq<Seq<char>>
    decreases lines.len(),
{
    if lines.len() == 0 {
        Seq::empty()
    } else {
        let prev = spec_segment_lines(lines.drop_last());
        if spec_trim(lines.last()).len() == 0 {
            prev
        } else {
            prev.push(lines.last())
        }
    }
}

/// Split one log segment into its non-blank lines.
pub fn process_log_segment(log_segment_str: &str) -> (r: Vec<String>)
    ensures
        r@.len() == spec_segment_lines(spec_lines(log_segment_str@)).len(),
        forall|i: int|
            0 <= i < r@.len() ==> (#[trigger] r@[i])@ == spec_segment_lines(
                spec_lines(log_segment_str@),
            )[i],
{
    let chars = chars_of(log_segment_str);
    let lines = lines_of(&chars);
    let n = lines.len();
    let mut out: Vec<String> = Vec::new();
    let mut i: usize = 0;
    while i < n
        invariant
            n == lines@.len(),
            lines@.len() == spec_lines(chars@).len(),
            forall|m: int| 0 <= m < n ==> (#[trigger] lines@[m])@ == spec_lines(chars@)[m],
            chars@ == log_segment_str@,
            0 <= i <= n,
            out@.len() == spec_segment_lines(spec_lines(chars@).take(i as int)).len(),
            forall|m: int|
                0 <= m < out@.len() ==> (#[trigger] out@[m])@ == spec_segment_lines(
                    spec_lines(chars@).take(i as int),
                )[m],
        decreases n - i,
    {
        proof {
            assert(spec_lines(chars@).take(i as int + 1).drop_last() =~= spec_lines(chars@).take(
                i as int,
            ));
            assert(spec_lines(chars@).take(i as int + 1).last() == spec_lines(chars@)[i as int]);
        }
        let t = trim_chars(&lines[i]);
        if t.len() > 0 {
            out.push(string_of(&lines[i]));
        }
        i += 1;
    }
    proof {
        assert(spec_lines(chars@).take(n as int) =~= spec_lines(chars@));
    }
    out
}

} // verus!
