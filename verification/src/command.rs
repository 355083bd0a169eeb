//! A compiler invocation: programs, arguments, environment and directory.

use vstd::prelude::*;
use vstd::string::*;
use vstd::utf8::*;

use crate::bytes::bytes_before;
use crate::bytes::bytes_equal;
use crate::bytes::bytes_less;
use crate::bytes::copy_bytes;
use crate::bytes::lemma_bytes_less_total;
use crate::bytes::lemma_bytes_less_transitive;
use crate::bytes::optional;
use crate::bytes::utf8;
use crate::digest::lossy_text;
use crate::digest::text_from_utf8;
use crate::digest::text_from_utf8_lossy;
use crate::text::text_is;
use crate::text::texts;
use crate::unix_path::byte_strings;

verus! {

/// A variable that an invocation sets, or removes where it has no value.
pub struct Variable {
    pub name: String,
    pub value: Option<Vec<u8>>,
}

/// A variable of the process that starts the invocation.
pub struct Inherited {
    pub name: Vec<u8>,
    pub value: Vec<u8>,
}

/// A compiler invocation. `wrappers` holds the programs that wrap `program`,
/// the outermost one last. `environment` is ordered by name.
pub struct Command {
    pub wrappers: Vec<Vec<u8>>,
    pub program: Vec<u8>,
    pub arguments: Vec<Vec<u8>>,
    pub environment: Vec<Variable>,
    pub directory: Option<Vec<u8>>,
    pub inherited: Vec<Inherited>,
    /// Whether the arguments are put into a file where they are too many for the
    /// system.
    pub retry_with_argfile: bool,
}

/// The names and values that an invocation sets or removes.
pub open spec fn settings(environment: Seq<Variable>) -> Seq<(Seq<char>, Option<Seq<u8>>)> {
    Seq::new(environment.len(), |i: int| (environment[i].name@, optional(environment[i].value)))
}

/// The names and values of the inherited environment.
pub open spec fn inherited_settings(inherited: Seq<Inherited>) -> Seq<(Seq<u8>, Seq<u8>)> {
    Seq::new(inherited.len(), |i: int| (inherited[i].name@, inherited[i].value@))
}

/// What an ordered list of settings says of `name`: nothing, that it is
/// removed, or its value.
pub open spec fn explicit_setting(
    list: Seq<(Seq<char>, Option<Seq<u8>>)>,
    name: Seq<char>,
) -> Option<Option<Seq<u8>>>
    decreases list.len(),
{
    if list.len() == 0 {
        None
    } else if list[0].0 == name {
        Some(list[0].1)
    } else {
        explicit_setting(list.drop_first(), name)
    }
}

/// The inherited value of `name`.
pub open spec fn inherited_value(list: Seq<(Seq<u8>, Seq<u8>)>, name: Seq<u8>) -> Option<Seq<u8>>
    decreases list.len(),
{
    if list.len() == 0 {
        None
    } else if list[0].0 == name {
        Some(list[0].1)
    } else {
        inherited_value(list.drop_first(), name)
    }
}

impl Command {
    /// The arguments behind the first program: the inner programs of a wrapped
    /// invocation come before its own arguments.
    pub open spec fn argument_list(&self) -> Seq<Seq<u8>> {
        if self.wrappers@.len() == 0 {
            byte_strings(self.arguments@)
        } else {
            byte_strings(self.wrappers@).reverse().drop_first().push(self.program@) + byte_strings(
                self.arguments@,
            )
        }
    }

    /// All programs of the invocation, the outermost first.
    pub open spec fn program_list(&self) -> Seq<Seq<u8>> {
        byte_strings(self.wrappers@).reverse().push(self.program@)
    }

    /// The program that is started.
    pub open spec fn outer_program(&self) -> Seq<u8> {
        if self.wrappers@.len() == 0 {
            self.program@
        } else {
            self.wrappers@.last()@
        }
    }

    /// The settings of the invocation itself.
    pub open spec fn setting_list(&self) -> Seq<(Seq<char>, Option<Seq<u8>>)> {
        settings(self.environment@)
    }

    /// The value of `name` as the started process sees it.
    pub open spec fn effective(&self, name: Seq<char>) -> Option<Seq<u8>> {
        match explicit_setting(self.setting_list(), name) {
            Some(value) => value,
            None => inherited_value(inherited_settings(self.inherited@), utf8(name)),
        }
    }

    /// Whether the settings are ordered by name, each name once.
    pub open spec fn well_formed(&self) -> bool {
        ordered(self.setting_list())
    }
}

/// Whether settings are strictly ordered by name.
pub open spec fn ordered(list: Seq<(Seq<char>, Option<Seq<u8>>)>) -> bool {
    forall|i: int, j: int|
        0 <= i < j < list.len() ==> bytes_less(#[trigger] utf8(list[i].0), #[trigger] utf8(
            list[j].0,
        ))
}

/// The settings with `name` set to `value`, kept in order.
pub open spec fn with_setting(
    list: Seq<(Seq<char>, Option<Seq<u8>>)>,
    name: Seq<char>,
    value: Option<Seq<u8>>,
) -> Seq<(Seq<char>, Option<Seq<u8>>)>
    decreases list.len(),
{
    if list.len() == 0 {
        seq![(name, value)]
    } else if list[0].0 == name {
        seq![(name, value)] + list.drop_first()
    } else if bytes_less(utf8(name), utf8(list[0].0)) {
        seq![(name, value)] + list
    } else {
        seq![list[0]] + with_setting(list.drop_first(), name, value)
    }
}

/// A copy of an optional byte string.
pub fn copy_value(value: &Option<Vec<u8>>) -> (copy: Option<Vec<u8>>)
    ensures
        optional(copy) == optional(*value),
{
    match value {
        Some(value) => Some(copy_bytes(value.as_slice())),
        None => None,
    }
}

impl Command {
    /// An invocation of `program` without arguments or settings.
    pub fn new(program: &str) -> (command: Command)
        ensures
            command.wrappers@.len() == 0,
            command.program@ == utf8(program@),
            command.arguments@.len() == 0,
            command.environment@.len() == 0,
            command.directory is None,
            command.inherited@.len() == 0,
            !command.retry_with_argfile,
            command.well_formed(),
    {
        Command {
            wrappers: Vec::new(),
            program: copy_bytes(program.as_bytes()),
            arguments: Vec::new(),
            environment: Vec::new(),
            directory: None,
            inherited: Vec::new(),
            retry_with_argfile: false,
        }
    }

    /// An invocation of the program at `path`.
    pub fn for_path(path: &[u8]) -> (command: Command)
        ensures
            command.wrappers@.len() == 0,
            command.program@ == path@,
            command.arguments@.len() == 0,
            command.environment@.len() == 0,
            command.directory is None,
            command.inherited@.len() == 0,
            !command.retry_with_argfile,
            command.well_formed(),
    {
        Command {
            wrappers: Vec::new(),
            program: copy_bytes(path),
            arguments: Vec::new(),
            environment: Vec::new(),
            directory: None,
            inherited: Vec::new(),
            retry_with_argfile: false,
        }
    }

    /// Wraps the invocation in the program at `path`, where there is one. An
    /// empty path is none.
    pub fn wrapped(&mut self, path: &Option<Vec<u8>>)
        ensures
            byte_strings(final(self).wrappers@) == match *path {
                Some(path) => if path@.len() > 0 {
                    byte_strings(old(self).wrappers@).push(path@)
                } else {
                    byte_strings(old(self).wrappers@)
                },
                None => byte_strings(old(self).wrappers@),
            },
            final(self).arguments == old(self).arguments,
            final(self).program == old(self).program,
            final(self).environment == old(self).environment,
            final(self).directory == old(self).directory,
            final(self).inherited == old(self).inherited,
            final(self).retry_with_argfile == old(self).retry_with_argfile,
    {
        let ghost before = self.wrappers@;
        match path {
            Some(path) => {
                if path.len() > 0 {
                    self.wrappers.push(copy_bytes(path.as_slice()));
                    proof {
                        assert(byte_strings(self.wrappers@) =~= byte_strings(before).push(path@));
                    }
                }
            },
            None => {},
        }
    }

    /// Adds an argument.
    pub fn arg(&mut self, argument: &str)
        ensures
            byte_strings(final(self).arguments@) == byte_strings(old(self).arguments@).push(
                utf8(argument@),
            ),
            final(self).wrappers == old(self).wrappers,
            final(self).program == old(self).program,
            final(self).environment == old(self).environment,
            final(self).directory == old(self).directory,
            final(self).inherited == old(self).inherited,
            final(self).retry_with_argfile == old(self).retry_with_argfile,
    {
        self.raw_arg(copy_bytes(argument.as_bytes()));
    }

    /// Adds an argument that need not be text.
    pub fn raw_arg(&mut self, argument: Vec<u8>)
        ensures
            byte_strings(final(self).arguments@) == byte_strings(old(self).arguments@).push(
                argument@,
            ),
            final(self).wrappers == old(self).wrappers,
            final(self).program == old(self).program,
            final(self).environment == old(self).environment,
            final(self).directory == old(self).directory,
            final(self).inherited == old(self).inherited,
            final(self).retry_with_argfile == old(self).retry_with_argfile,
    {
        let ghost before = self.arguments@;
        self.arguments.push(argument);
        proof {
            assert(byte_strings(self.arguments@) =~= byte_strings(before).push(argument@));
        }
    }

    /// Wraps the invocation in `wrapper`.
    pub fn wrap(&mut self, wrapper: &str)
        ensures
            byte_strings(final(self).wrappers@) == byte_strings(old(self).wrappers@).push(
                utf8(wrapper@),
            ),
            final(self).arguments == old(self).arguments,
            final(self).program == old(self).program,
            final(self).environment == old(self).environment,
            final(self).directory == old(self).directory,
            final(self).inherited == old(self).inherited,
            final(self).retry_with_argfile == old(self).retry_with_argfile,
    {
        let ghost before = self.wrappers@;
        self.wrappers.push(copy_bytes(wrapper.as_bytes()));
        proof {
            assert(byte_strings(self.wrappers@) =~= byte_strings(before).push(utf8(wrapper@)));
        }
    }

    /// Sets the variable `name`.
    pub fn env(&mut self, name: &str, value: &[u8])
        requires
            old(self).well_formed(),
        ensures
            final(self).setting_list() == with_setting(
                old(self).setting_list(),
                name@,
                Some(value@),
            ),
            final(self).well_formed(),
            final(self).wrappers == old(self).wrappers,
            final(self).program == old(self).program,
            final(self).arguments == old(self).arguments,
            final(self).directory == old(self).directory,
            final(self).inherited == old(self).inherited,
            final(self).retry_with_argfile == old(self).retry_with_argfile,
    {
        self.put_setting(name, Some(copy_bytes(value)));
    }

    /// Removes the variable `name` from what the started process sees.
    pub fn env_remove(&mut self, name: &str)
        requires
            old(self).well_formed(),
        ensures
            final(self).setting_list() == with_setting(old(self).setting_list(), name@, None),
            final(self).well_formed(),
            final(self).wrappers == old(self).wrappers,
            final(self).program == old(self).program,
            final(self).arguments == old(self).arguments,
            final(self).directory == old(self).directory,
            final(self).inherited == old(self).inherited,
            final(self).retry_with_argfile == old(self).retry_with_argfile,
    {
        self.put_setting(name, None);
    }

    /// Records a setting at its place in the order.
    fn put_setting(&mut self, name: &str, value: Option<Vec<u8>>)
        requires
            old(self).well_formed(),
        ensures
            final(self).setting_list() == with_setting(
                old(self).setting_list(),
                name@,
                optional(value),
            ),
            final(self).well_formed(),
            final(self).wrappers == old(self).wrappers,
            final(self).program == old(self).program,
            final(self).arguments == old(self).arguments,
            final(self).directory == old(self).directory,
            final(self).inherited == old(self).inherited,
            final(self).retry_with_argfile == old(self).retry_with_argfile,
    {
        let ghost before = self.setting_list();
        let ghost content = optional(value);
        let mut at: usize = 0;
        proof {
            assert(before.skip(0) =~= before);
            assert(before.take(0) + with_setting(before, name@, content) =~= with_setting(
                before,
                name@,
                content,
            ));
        }
        while at < self.environment.len() && !text_is(self.environment[at].name.as_str(), name)
            && !bytes_before(name.as_bytes(), self.environment[at].name.as_str().as_bytes())
            invariant
                at <= self.environment@.len(),
                self == old(self),
                before == self.setting_list(),
                before.take(at as int) + with_setting(before.skip(at as int), name@, content)
                    == with_setting(before, name@, content),
            decreases self.environment@.len() - at,
        {
            proof {
                let rest = before.skip(at as int);
                assert(rest[0] == before[at as int]);
                assert(rest.drop_first() =~= before.skip(at + 1));
                assert(before.take(at + 1) =~= before.take(at as int).push(before[at as int]));
                assert(before.take(at as int) + (seq![rest[0]] + with_setting(
                    before.skip(at + 1),
                    name@,
                    content,
                )) =~= before.take(at + 1) + with_setting(before.skip(at + 1), name@, content));
            }
            at = at + 1;
        }
        let variable = Variable { name: name.to_owned(), value };
        let ghost rest = before.skip(at as int);
        if at < self.environment.len() && text_is(self.environment[at].name.as_str(), name) {
            self.environment.set(at, variable);
            proof {
                assert(rest[0] == before[at as int]);
                assert(rest.drop_first() =~= before.skip(at + 1));
                assert(self.setting_list() =~= before.take(at as int) + (seq![(name@, content)]
                    + before.skip(at + 1)));
            }
        } else {
            self.environment.insert(at, variable);
            proof {
                if rest.len() > 0 {
                    assert(rest[0] == before[at as int]);
                } else {
                    assert(rest =~= Seq::empty());
                    assert(seq![(name@, content)] + rest =~= seq![(name@, content)]);
                }
                assert(self.setting_list() =~= before.take(at as int) + (seq![(name@, content)]
                    + rest));
            }
        }
        proof {
            lemma_with_setting_ordered(before, name@, content);
        }
    }
}

/// Setting a variable keeps the settings ordered, and the first name is the
/// new one or the old first one.
pub proof fn lemma_with_setting_ordered(
    list: Seq<(Seq<char>, Option<Seq<u8>>)>,
    name: Seq<char>,
    value: Option<Seq<u8>>,
)
    requires
        ordered(list),
    ensures
        ordered(with_setting(list, name, value)),
        forall|i: int|
            0 <= i < with_setting(list, name, value).len() ==> (#[trigger] with_setting(
                list,
                name,
                value,
            )[i]).0 == name || exists|j: int|
                0 <= j < list.len() && #[trigger] list[j].0 == with_setting(list, name, value)[i].0,
    decreases list.len(),
{
    let result = with_setting(list, name, value);
    if list.len() == 0 {
    } else if list[0].0 == name {
        assert forall|i: int, j: int| 0 <= i < j < result.len() implies bytes_less(
            #[trigger] utf8(result[i].0),
            #[trigger] utf8(result[j].0),
        ) by {
            assert(result[i].0 == list[i].0);
            assert(result[j].0 == list[j].0);
        }
        assert forall|i: int| 0 <= i < result.len() implies (#[trigger] result[i]).0 == name
            || exists|j: int| 0 <= j < list.len() && #[trigger] list[j].0 == result[i].0 by {
            assert(result[i].0 == list[i].0);
        }
    } else if bytes_less(utf8(name), utf8(list[0].0)) {
        assert forall|i: int, j: int| 0 <= i < j < result.len() implies bytes_less(
            #[trigger] utf8(result[i].0),
            #[trigger] utf8(result[j].0),
        ) by {
            assert(result[j] == list[j - 1]);
            if i == 0 {
                if j > 1 {
                    assert(bytes_less(utf8(list[0].0), utf8(list[j - 1].0)));
                    lemma_bytes_less_transitive(utf8(name), utf8(list[0].0), utf8(list[j - 1].0));
                }
            } else {
                assert(result[i] == list[i - 1]);
            }
        }
        assert forall|i: int| 0 <= i < result.len() implies (#[trigger] result[i]).0 == name
            || exists|j: int| 0 <= j < list.len() && #[trigger] list[j].0 == result[i].0 by {
            if i > 0 {
                assert(result[i] == list[i - 1]);
            }
        }
    } else {
        let rest = list.drop_first();
        assert(ordered(rest)) by {
            assert forall|i: int, j: int| 0 <= i < j < rest.len() implies bytes_less(
                #[trigger] utf8(rest[i].0),
                #[trigger] utf8(rest[j].0),
            ) by {
                assert(rest[i] == list[i + 1]);
                assert(rest[j] == list[j + 1]);
            }
        }
        lemma_with_setting_ordered(rest, name, value);
        let tail = with_setting(rest, name, value);
        lemma_bytes_less_total(utf8(name), utf8(list[0].0));
        if utf8(name) == utf8(list[0].0) {
            encode_utf8_decode_utf8(name);
            encode_utf8_decode_utf8(list[0].0);
        }
        assert forall|i: int, j: int| 0 <= i < j < result.len() implies bytes_less(
            #[trigger] utf8(result[i].0),
            #[trigger] utf8(result[j].0),
        ) by {
            assert(result[j] == tail[j - 1]);
            if i == 0 {
                if tail[j - 1].0 != name {
                    let k = choose|k: int|
                        0 <= k < rest.len() && #[trigger] rest[k].0 == tail[j - 1].0;
                    assert(rest[k] == list[k + 1]);
                    assert(bytes_less(utf8(list[0].0), utf8(list[k + 1].0)));
                }
            } else {
                assert(result[i] == tail[i - 1]);
            }
        }
        assert forall|i: int| 0 <= i < result.len() implies (#[trigger] result[i]).0 == name
            || exists|j: int| 0 <= j < list.len() && #[trigger] list[j].0 == result[i].0 by {
            if i == 0 {
                assert(list[0].0 == result[0].0);
            } else {
                assert(result[i] == tail[i - 1]);
                if tail[i - 1].0 != name {
                    let k = choose|k: int|
                        0 <= k < rest.len() && #[trigger] rest[k].0 == tail[i - 1].0;
                    assert(rest[k] == list[k + 1]);
                    assert(list[k + 1].0 == result[i].0);
                }
            }
        }
    }
}

/// The lossy texts of a list of byte strings.
pub open spec fn lossy_list(list: Seq<Seq<u8>>) -> Seq<Seq<char>> {
    Seq::new(list.len(), |i: int| lossy_text(list[i]))
}

/// Whether every byte string of a list is well-formed UTF-8.
pub open spec fn all_text(list: Seq<Seq<u8>>) -> bool {
    forall|i: int| 0 <= i < list.len() ==> valid_utf8(#[trigger] list[i])
}

/// Whether every byte string of a list is well-formed UTF-8.
fn list_is_text(list: &Vec<Vec<u8>>) -> (text: bool)
    ensures
        text == all_text(byte_strings(list@)),
{
    let mut index: usize = 0;
    while index < list.len()
        invariant
            index <= list@.len(),
            forall|i: int| 0 <= i < index ==> valid_utf8(#[trigger] byte_strings(list@)[i]),
        decreases list@.len() - index,
    {
        if text_from_utf8(list[index].as_slice()).is_none() {
            proof {
                assert(!valid_utf8(byte_strings(list@)[index as int]));
            }
            return false;
        }
        index = index + 1;
    }
    true
}

impl Command {
    /// The arguments behind the first program.
    pub fn get_args(&self) -> (list: Vec<Vec<u8>>)
        ensures
            byte_strings(list@) == self.argument_list(),
    {
        let mut list: Vec<Vec<u8>> = Vec::new();
        if self.wrappers.len() > 0 {
            let ghost inner = byte_strings(self.wrappers@).reverse().drop_first();
            let mut left: usize = self.wrappers.len() - 1;
            proof {
                assert(byte_strings(list@) =~= inner.take(0));
            }
            while left > 0
                invariant
                    left < self.wrappers@.len(),
                    inner == byte_strings(self.wrappers@).reverse().drop_first(),
                    byte_strings(list@) == inner.take(self.wrappers@.len() - 1 - left),
                decreases left,
            {
                let ghost before = list@;
                left = left - 1;
                list.push(copy_bytes(self.wrappers[left].as_slice()));
                proof {
                    assert(byte_strings(list@) =~= byte_strings(before).push(
                        self.wrappers@[left as int]@,
                    ));
                    assert(byte_strings(list@) =~= inner.take(self.wrappers@.len() - 1 - left));
                }
            }
            let ghost before = list@;
            list.push(copy_bytes(self.program.as_slice()));
            proof {
                assert(inner.take(inner.len() as int) =~= inner);
                assert(byte_strings(list@) =~= inner.push(self.program@));
            }
        }
        let ghost start = byte_strings(list@);
        let mut index: usize = 0;
        proof {
            assert(start + byte_strings(self.arguments@).take(0) =~= start);
        }
        while index < self.arguments.len()
            invariant
                index <= self.arguments@.len(),
                byte_strings(list@) == start + byte_strings(self.arguments@).take(index as int),
            decreases self.arguments@.len() - index,
        {
            let ghost before = list@;
            list.push(copy_bytes(self.arguments[index].as_slice()));
            proof {
                assert(byte_strings(list@) =~= byte_strings(before).push(
                    self.arguments@[index as int]@,
                ));
                assert(byte_strings(list@) =~= start + byte_strings(self.arguments@).take(
                    index + 1,
                ));
            }
            index = index + 1;
        }
        proof {
            assert(byte_strings(self.arguments@).take(index as int) =~= byte_strings(
                self.arguments@,
            ));
            assert(start + byte_strings(self.arguments@) =~= self.argument_list());
        }
        list
    }

    /// The program that is started.
    pub fn get_program(&self) -> (program: &[u8])
        ensures
            program@ == self.outer_program(),
    {
        if self.wrappers.len() == 0 {
            self.program.as_slice()
        } else {
            self.wrappers[self.wrappers.len() - 1].as_slice()
        }
    }

    /// The lossy texts of the arguments behind the first program.
    pub fn argument_texts(&self) -> (list: Vec<String>)
        ensures
            texts(list@) == lossy_list(self.argument_list()),
    {
        let raw = self.get_args();
        let mut list: Vec<String> = Vec::new();
        let mut index: usize = 0;
        while index < raw.len()
            invariant
                index <= raw@.len(),
                list@.len() == index,
                forall|i: int| 0 <= i < index ==> (#[trigger] list@[i])@ == lossy_text(raw@[i]@),
            decreases raw@.len() - index,
        {
            list.push(text_from_utf8_lossy(raw[index].as_slice()));
            index = index + 1;
        }
        proof {
            let wanted = lossy_list(self.argument_list());
            assert(wanted.len() == raw@.len());
            assert forall|i: int| 0 <= i < wanted.len() implies texts(list@)[i] == wanted[i] by {
                assert(byte_strings(raw@)[i] == raw@[i]@);
                assert(list@[i]@ == lossy_text(raw@[i]@));
            }
            assert(texts(list@) =~= wanted);
        }
        list
    }

    /// Whether the invocation itself sets or removes `name`.
    pub fn sets(&self, name: &str) -> (found: bool)
        ensures
            found == (explicit_setting(self.setting_list(), name@) is Some),
    {
        self.find_setting(name) < self.environment.len()
    }

    /// The position of the setting of `name`, or the number of settings.
    fn find_setting(&self, name: &str) -> (at: usize)
        ensures
            at <= self.environment@.len(),
            at < self.environment@.len() ==> explicit_setting(self.setting_list(), name@) == Some(
                optional(self.environment@[at as int].value),
            ),
            at == self.environment@.len() ==> explicit_setting(self.setting_list(), name@) is None,
    {
        let mut at: usize = 0;
        proof {
            assert(self.setting_list().skip(0) =~= self.setting_list());
        }
        while at < self.environment.len()
            invariant
                at <= self.environment@.len(),
                explicit_setting(self.setting_list(), name@) == explicit_setting(
                    self.setting_list().skip(at as int),
                    name@,
                ),
            decreases self.environment@.len() - at,
        {
            proof {
                assert(self.setting_list().skip(at as int)[0] == self.setting_list()[at as int]);
                assert(self.setting_list().skip(at as int).drop_first()
                    =~= self.setting_list().skip(at + 1));
            }
            if text_is(self.environment[at].name.as_str(), name) {
                return at;
            }
            at = at + 1;
        }
        proof {
            assert(self.setting_list().skip(at as int).len() == 0);
        }
        at
    }

    /// The value of `name` as the started process sees it.
    pub fn get_env(&self, name: &str) -> (value: Option<Vec<u8>>)
        ensures
            optional(value) == self.effective(name@),
    {
        let at: usize = self.find_setting(name);
        if at < self.environment.len() {
            return copy_value(&self.environment[at].value);
        }
        let wanted = name.as_bytes();
        let ghost list = inherited_settings(self.inherited@);
        let mut index: usize = 0;
        proof {
            assert(list.skip(0) =~= list);
        }
        while index < self.inherited.len()
            invariant
                index <= self.inherited@.len(),
                list == inherited_settings(self.inherited@),
                wanted@ == utf8(name@),
                explicit_setting(self.setting_list(), name@) is None,
                inherited_value(list, wanted@) == inherited_value(list.skip(index as int), wanted@),
            decreases self.inherited@.len() - index,
        {
            proof {
                assert(list.skip(index as int)[0] == list[index as int]);
                assert(list.skip(index as int).drop_first() =~= list.skip(index + 1));
            }
            if bytes_equal(self.inherited[index].name.as_slice(), wanted) {
                return Some(copy_bytes(self.inherited[index].value.as_slice()));
            }
            index = index + 1;
        }
        proof {
            assert(list.skip(index as int).len() == 0);
        }
        None
    }

    /// Whether the programs, the arguments and the values of the invocation
    /// are all text.
    pub open spec fn is_text(&self) -> bool {
        &&& all_text(self.program_list())
        &&& all_text(self.argument_list())
        &&& forall|i: int|
            0 <= i < self.setting_list().len() ==> ((#[trigger] self.setting_list()[i]).1 is Some
                ==> valid_utf8(self.setting_list()[i].1->0))
    }

    /// Whether the programs, the arguments and the values are all text.
    pub fn holds_only_text(&self) -> (text: bool)
        ensures
            text == self.is_text(),
    {
        let programs_are_text = list_is_text(&self.wrappers) && text_from_utf8(
            self.program.as_slice(),
        ).is_some();
        proof {
            let wrappers = byte_strings(self.wrappers@);
            let programs = self.program_list();
            if programs_are_text {
                assert forall|i: int| 0 <= i < programs.len() implies valid_utf8(
                    #[trigger] programs[i],
                ) by {
                    if i < wrappers.len() {
                        assert(programs[i] == wrappers[wrappers.len() - 1 - i]);
                    }
                }
            } else if !all_text(wrappers) {
                let i = choose|i: int| 0 <= i < wrappers.len() && !valid_utf8(#[trigger] wrappers[i]);
                assert(programs[wrappers.len() - 1 - i] == wrappers[i]);
            } else {
                assert(programs[wrappers.len() as int] == self.program@);
            }
        }
        if !programs_are_text {
            return false;
        }
        let arguments = self.get_args();
        if !list_is_text(&arguments) {
            return false;
        }
        let mut index: usize = 0;
        while index < self.environment.len()
            invariant
                index <= self.environment@.len(),
                all_text(self.program_list()),
                all_text(self.argument_list()),
                forall|i: int|
                    0 <= i < index ==> ((#[trigger] self.setting_list()[i]).1 is Some
                        ==> valid_utf8(self.setting_list()[i].1->0)),
            decreases self.environment@.len() - index,
        {
            if let Some(value) = &self.environment[index].value {
                if text_from_utf8(value.as_slice()).is_none() {
                    proof {
                        assert(self.setting_list()[index as int].1 == Some(value@));
                    }
                    return false;
                }
            }
            index = index + 1;
        }
        true
    }
}

/// A variable that is set has its value, and the others keep theirs.
pub proof fn law_settings_take_effect(
    list: Seq<(Seq<char>, Option<Seq<u8>>)>,
    name: Seq<char>,
    value: Option<Seq<u8>>,
    other: Seq<char>,
)
    requires
        ordered(list),
    ensures
        explicit_setting(with_setting(list, name, value), name) == Some(value),
        other != name ==> explicit_setting(with_setting(list, name, value), other)
            == explicit_setting(list, other),
    decreases list.len(),
{
    let result = with_setting(list, name, value);
    if list.len() == 0 {
        assert(result.drop_first() =~= list);
    } else if list[0].0 == name {
        assert(result.drop_first() =~= list.drop_first());
    } else if bytes_less(utf8(name), utf8(list[0].0)) {
        assert(result.drop_first() =~= list);
    } else {
        let rest = list.drop_first();
        assert forall|i: int, j: int| 0 <= i < j < rest.len() implies bytes_less(
            #[trigger] utf8(rest[i].0),
            #[trigger] utf8(rest[j].0),
        ) by {
            assert(rest[i] == list[i + 1] && rest[j] == list[j + 1]);
            assert(bytes_less(utf8(list[i + 1].0), utf8(list[j + 1].0)));
        }
        law_settings_take_effect(rest, name, value, other);
        assert(result.drop_first() =~= with_setting(rest, name, value));
    }
}

} // verus!
