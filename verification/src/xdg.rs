//! Desktop-entry string handling: value unescaping, list splitting on `;`
//! with escaped separators, and command-template field-code substitution.

use vstd::prelude::*;
use vstd::string::StrSliceExecFns;
use vstd::string::StringExecFns;

verus! {

/// One step of unescaping: what a backslash followed by `c` stands for.
/// Separator escapes (`\;`) keep their meaning only inside list entries
/// (`multi`); elsewhere the pair loses the separator.
pub open spec fn spec_escape_piece(c: char, multi: bool) -> Seq<char> {
    if c == 's' {
        seq![' ']
    } else if c == 't' {
        seq!['\t']
    } else if c == 'r' {
        seq!['\r']
    } else if c == 'n' {
        seq!['\n']
    } else if c == '\\' {
        seq!['\\']
    } else if c == ';' {
        if multi {
            seq![';']
        } else {
            Seq::<char>::empty()
        }
    } else {
        seq!['\\', c]
    }
}

/// Unescaping a suffix, given whether a backslash immediately precedes it.
pub open spec fn spec_unescape_from(s: Seq<char>, control: bool, multi: bool) -> Seq<char>
    decreases s.len(),
{
    if s.len() == 0 {
        if control {
            seq!['\\']
        } else {
            Seq::<char>::empty()
        }
    } else if control {
        spec_escape_piece(s[0], multi) + spec_unescape_from(s.drop_first(), false, multi)
    } else if s[0] == '\\' {
        spec_unescape_from(s.drop_first(), true, multi)
    } else {
        seq![s[0]] + spec_unescape_from(s.drop_first(), false, multi)
    }
}

/// The unescaped form of a desktop-entry string value.
pub open spec fn spec_unescape(s: Seq<char>, multi: bool) -> Seq<char> {
    spec_unescape_from(s, false, multi)
}

/// Resolves the escape sequences of a desktop-entry value: `\s`, `\t`,
/// `\r`, `\n` and `\\` become the character they name, `\;` stays a `;`
/// inside list entries (`multi`), any other pair is kept as written, and a
/// trailing lone backslash is kept.
pub fn unescape(input: &str, multi: bool) -> (r: String)
    ensures
        r@ == spec_unescape(input@, multi),
{
    let len = input.unicode_len();
    let mut out = String::new();
    let mut control = false;
    let mut i: usize = 0;
    proof {
        assert(input@.skip(0int) =~= input@);
    }
    while i < len
        invariant
            len == input@.len(),
            i <= len,
            spec_unescape(input@, multi) == out@ + spec_unescape_from(
                input@.skip(i as int),
                control,
                multi,
            ),
        decreases len - i,
    {
        let c = input.get_char(i);
        let ghost suffix = input@.skip(i as int);
        let ghost prev = out@;
        proof {
            assert(suffix.len() > 0);
            assert(suffix[0] == input@[i as int]);
            assert(suffix.drop_first() =~= input@.skip(i + 1));
        }
        if control {
            match c {
                's' => out.push(' '),
                't' => out.push('\t'),
                'r' => out.push('\r'),
                'n' => out.push('\n'),
                '\\' => out.push('\\'),
                ';' => {
                    if multi {
                        out.push(';');
                    }
                },
                _ => {
                    out.push('\\');
                    out.push(c);
                },
            }
            control = false;
            proof {
                assert(out@ =~= prev + spec_escape_piece(c, multi));
                assert((prev + spec_escape_piece(c, multi)) + spec_unescape_from(
                    input@.skip(i + 1),
                    false,
                    multi,
                ) =~= prev + (spec_escape_piece(c, multi) + spec_unescape_from(
                    input@.skip(i + 1),
                    false,
                    multi,
                )));
            }
        } else {
            if c == '\\' {
                control = true;
            } else {
                out.push(c);
                proof {
                    assert(out@ =~= prev + seq![c]);
                    assert((prev + seq![c]) + spec_unescape_from(input@.skip(i + 1), false, multi)
                        =~= prev + (seq![c] + spec_unescape_from(input@.skip(i + 1), false, multi)));
                }
            }
        }
        i = i + 1;
    }
    proof {
        assert(input@.skip(len as int) =~= Seq::<char>::empty());
        if control {
            assert(spec_unescape(input@, multi) == out@ + seq!['\\']);
        } else {
            assert(spec_unescape(input@, multi) == out@ + Seq::<char>::empty());
            assert(out@ + Seq::<char>::empty() =~= out@);
        }
    }
    if control {
        let ghost prev = out@;
        out.push('\\');
        proof {
            assert(out@ =~= prev + seq!['\\']);
        }
    }
    out
}

/// Splitting a `;`-separated list value, processing a suffix with the
/// current (not yet terminated) entry accumulated in `current`.  A `;`
/// preceded by a backslash belongs to the entry; each finished entry is
/// unescaped; an empty trailing entry is dropped.
pub open spec fn spec_split_from(s: Seq<char>, current: Seq<char>) -> Seq<Seq<char>>
    decreases s.len(),
{
    if s.len() == 0 {
        if current.len() == 0 {
            Seq::<Seq<char>>::empty()
        } else {
            seq![spec_unescape(current, true)]
        }
    } else if s[0] == ';' {
        if current.len() > 0 && current.last() == '\\' {
            spec_split_from(s.drop_first(), current.drop_last().push(';'))
        } else {
            seq![spec_unescape(current, true)] + spec_split_from(
                s.drop_first(),
                Seq::<char>::empty(),
            )
        }
    } else {
        spec_split_from(s.drop_first(), current.push(s[0]))
    }
}

/// The entries of a `;`-separated desktop-entry list value, unescaped.
pub open spec fn spec_split(s: Seq<char>) -> Seq<Seq<char>> {
    spec_split_from(s, Seq::<char>::empty())
}

/// Splits a `;`-separated list value into its entries, honouring `\;`
/// escapes, unescaping each entry, and dropping an empty trailing entry.
pub fn split(input: &str) -> (r: Vec<String>)
    ensures
        r@.map_values(|t: String| t@) == spec_split(input@),
{
    let len = input.unicode_len();
    let mut out: Vec<String> = Vec::new();
    let mut current = String::new();
    let mut i: usize = 0;
    proof {
        assert(input@.skip(0int) =~= input@);
        assert(out@.map_values(|t: String| t@) =~= Seq::<Seq<char>>::empty());
        assert(Seq::<Seq<char>>::empty() + spec_split_from(input@, current@) =~= spec_split_from(
            input@,
            current@,
        ));
    }
    while i < len
        invariant
            len == input@.len(),
            i <= len,
            spec_split(input@) == out@.map_values(|t: String| t@) + spec_split_from(
                input@.skip(i as int),
                current@,
            ),
        decreases len - i,
    {
        let c = input.get_char(i);
        let ghost suffix = input@.skip(i as int);
        let ghost cur0 = current@;
        let ghost prev_out = out@.map_values(|t: String| t@);
        proof {
            assert(suffix.len() > 0);
            assert(suffix[0] == input@[i as int]);
            assert(suffix.drop_first() =~= input@.skip(i + 1));
        }
        if c == ';' {
            let last = current.pop();
            let escaped = match last {
                Some(lc) => lc == '\\',
                None => false,
            };
            if escaped {
                current.push(c);
                proof {
                    assert(current@ =~= cur0.drop_last().push(';'));
                }
            } else {
                if let Some(lc) = last {
                    current.push(lc);
                }
                proof {
                    if cur0.len() > 0 {
                        assert(current@ =~= cur0);
                    }
                }
                let piece = unescape(current.as_str(), true);
                out.push(piece);
                current = String::new();
                proof {
                    assert(out@.map_values(|t: String| t@) =~= prev_out.push(
                        spec_unescape(cur0, true),
                    ));
                    assert(prev_out.push(spec_unescape(cur0, true)) + spec_split_from(
                        input@.skip(i + 1),
                        Seq::<char>::empty(),
                    ) =~= prev_out + (seq![spec_unescape(cur0, true)] + spec_split_from(
                        input@.skip(i + 1),
                        Seq::<char>::empty(),
                    )));
                }
            }
        } else {
            current.push(c);
        }
        i = i + 1;
    }
    proof {
        assert(input@.skip(len as int) =~= Seq::<char>::empty());
    }
    if !current.as_str().is_empty() {
        let ghost cur0 = current@;
        let ghost prev_out = out@.map_values(|t: String| t@);
        let piece = unescape(current.as_str(), true);
        out.push(piece);
        proof {
            assert(out@.map_values(|t: String| t@) =~= prev_out.push(spec_unescape(cur0, true)));
            assert(prev_out.push(spec_unescape(cur0, true)) =~= prev_out + seq![
                spec_unescape(cur0, true),
            ]);
        }
    } else {
        proof {
            assert(out@.map_values(|t: String| t@) + Seq::<Seq<char>>::empty() =~= out@.map_values(
                |t: String| t@,
            ));
        }
    }
    out
}

/// Whether `c` is a field code that the command-template substitution
/// recognizes after a `%`.
pub open spec fn spec_is_field_code(c: char) -> bool {
    c == 'f' || c == 'F' || c == 'u' || c == 'U' || c == 'd' || c == 'D' || c == 'n' || c == 'N'
        || c == 'i' || c == 'c' || c == 'k' || c == 'v' || c == 'm'
}

/// What a recognized field code expands to: `%i` the icon, `%c` the
/// display name, `%k` the launcher file path, every other code nothing.
pub open spec fn spec_field_value(c: char, icon: Seq<char>, name: Seq<char>, path: Seq<char>)
    -> Seq<char> {
    if c == 'i' {
        icon
    } else if c == 'c' {
        name
    } else if c == 'k' {
        path
    } else {
        Seq::<char>::empty()
    }
}

/// Command-template substitution over a suffix: each `%` followed by a
/// recognized field code is replaced, everything else is kept.
pub open spec fn spec_exec_substitute(
    s: Seq<char>,
    icon: Seq<char>,
    name: Seq<char>,
    path: Seq<char>,
) -> Seq<char>
    decreases s.len(),
{
    if s.len() == 0 {
        Seq::<char>::empty()
    } else if s.len() >= 2 && s[0] == '%' && spec_is_field_code(s[1]) {
        spec_field_value(s[1], icon, name, path) + spec_exec_substitute(
            s.skip(2),
            icon,
            name,
            path,
        )
    } else {
        seq![s[0]] + spec_exec_substitute(s.drop_first(), icon, name, path)
    }
}

/// Expands the field codes of a command template: `%i` to the icon
/// reference, `%c` to the display name, `%k` to the launcher file path,
/// the remaining recognized codes to nothing; unrecognized `%` pairs and
/// all other text are kept as written.
pub fn exec_substitute(input: &str, icon: Option<String>, name: &str, path: &str) -> (r: String)
    ensures
        r@ == spec_exec_substitute(
            input@,
            match icon {
                Some(ic) => ic@,
                None => Seq::<char>::empty(),
            },
            name@,
            path@,
        ),
{
    let icon_str: String = match icon {
        Some(ic) => ic,
        None => String::new(),
    };
    let ghost icon_view = icon_str@;
    let len = input.unicode_len();
    let mut out = String::new();
    let mut i: usize = 0;
    proof {
        assert(input@.skip(0int) =~= input@);
    }
    while i < len
        invariant
            len == input@.len(),
            i <= len,
            icon_str@ == icon_view,
            spec_exec_substitute(input@, icon_view, name@, path@) == out@ + spec_exec_substitute(
                input@.skip(i as int),
                icon_view,
                name@,
                path@,
            ),
        decreases len - i,
    {
        let c = input.get_char(i);
        let ghost suffix = input@.skip(i as int);
        let ghost prev = out@;
        proof {
            assert(suffix.len() > 0);
            assert(suffix[0] == input@[i as int]);
            assert(suffix.drop_first() =~= input@.skip(i + 1));
        }
        let mut code: Option<char> = None;
        if c == '%' && i + 1 < len {
            let c2 = input.get_char(i + 1);
            if c2 == 'f' || c2 == 'F' || c2 == 'u' || c2 == 'U' || c2 == 'd' || c2 == 'D'
                || c2 == 'n' || c2 == 'N' || c2 == 'i' || c2 == 'c' || c2 == 'k' || c2 == 'v'
                || c2 == 'm' {
                code = Some(c2);
            }
        }
        match code {
            Some(c2) => {
                proof {
                    assert(suffix[1] == input@[i + 1]);
                    assert(suffix.skip(2) =~= input@.skip(i + 2));
                }
                if c2 == 'i' {
                    out.append(icon_str.as_str());
                } else if c2 == 'c' {
                    out.append(name);
                } else if c2 == 'k' {
                    out.append(path);
                }
                proof {
                    assert(out@ =~= prev + spec_field_value(c2, icon_view, name@, path@));
                    assert((prev + spec_field_value(c2, icon_view, name@, path@))
                        + spec_exec_substitute(input@.skip(i + 2), icon_view, name@, path@) =~= prev
                        + (spec_field_value(c2, icon_view, name@, path@) + spec_exec_substitute(
                        input@.skip(i + 2),
                        icon_view,
                        name@,
                        path@,
                    )));
                }
                i = i + 2;
            },
            None => {
                out.push(c);
                proof {
                    if c == '%' && i + 1 < len {
                        assert(suffix.len() >= 2 && suffix[0] == '%' && !spec_is_field_code(
                            suffix[1],
                        ));
                    }
                    assert(out@ =~= prev + seq![c]);
                    assert((prev + seq![c]) + spec_exec_substitute(
                        input@.skip(i + 1),
                        icon_view,
                        name@,
                        path@,
                    ) =~= prev + (seq![c] + spec_exec_substitute(
                        input@.skip(i + 1),
                        icon_view,
                        name@,
                        path@,
                    )));
                }
                i = i + 1;
            },
        }
    }
    proof {
        assert(input@.skip(len as int) =~= Seq::<char>::empty());
        assert(out@ + Seq::<char>::empty() =~= out@);
    }
    out
}

} // verus!
