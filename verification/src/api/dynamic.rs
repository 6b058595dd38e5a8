//! Devices described at run time: a device, the Bluetooth address of the
//! peripheral that drives it, and for each option a command template.

use vstd::prelude::*;
use crate::api::control_options::{strings_view, ControlOptionsView};
use crate::api::device::Device;
use crate::api::hub::{command_check, HubError};
use crate::string_map::{text_map, StringMap};
use crate::text::{replace, replace_all};

verus! {

/// A device whose commands are given by templates: for an option `name`, the
/// template's occurrences of `{name}` are replaced by the requested value.
#[derive(Debug)]
pub struct DynamicDevice {
    pub device: Device,
    /// Bluetooth address of the peripheral.
    pub bluetooth: String,
    /// Option name to command template.
    pub handlers: StringMap<String>,
}

/// The placeholder for the value of option `name` in a template: `{name}`.
pub open spec fn placeholder(name: Seq<char>) -> Seq<char> {
    "{"@ + name + "}"@
}

/// The commands a dynamic hub sends for a control request, in option order:
/// for each option that has a template and a requested value, the template
/// with the option's placeholder replaced by the value.
pub open spec fn templated_commands(
    opts: Seq<ControlOptionsView>,
    handlers: Map<Seq<char>, Seq<char>>,
    data: Map<Seq<char>, Seq<char>>,
) -> Seq<Seq<char>>
    decreases opts.len(),
{
    if opts.len() == 0 {
        Seq::<Seq<char>>::empty()
    } else {
        let prev = templated_commands(opts.drop_last(), handlers, data);
        let name = opts.last().name;
        if handlers.contains_key(name) && data.contains_key(name) {
            prev.push(replace_all(handlers[name], placeholder(name), data[name]))
        } else {
            prev
        }
    }
}

fn placeholder_of(name: &String) -> (res: String)
    ensures
        res@ == placeholder(name@),
        res@.len() > 0,
{
    let mut res = "{".to_owned();
    res.append(name.as_str());
    res.append("}");
    proof {
        reveal_strlit("{");
    }
    res
}

/// What a dynamic hub sends, in order, for a control request `data` to
/// `target`, given whether its connection is alive and its templates
/// `handlers`; the caller sends each command and stops at the first failed
/// send.
pub fn dynamic_hub_commands(
    connected: bool,
    target: &Device,
    handlers: &StringMap<String>,
    data: &StringMap<String>,
) -> (res: Result<Vec<String>, HubError>)
    ensures
        match command_check(connected, target@) {
            Some(e) => res == Err::<Vec<String>, HubError>(e),
            None => res is Ok && strings_view(res->Ok_0@) == templated_commands(
                target@.ctrl_opts,
                text_map(handlers),
                text_map(data),
            ),
        },
{
    if !connected {
        return Err(HubError::NotConnected);
    }
    if target.dev_type != crate::api::device::DeviceType::Commandable {
        return Err(HubError::NotCommandable);
    }
    let ghost opts = target@.ctrl_opts;
    let mut out: Vec<String> = Vec::new();
    let n = target.ctrl_opts.len();
    let mut i: usize = 0;
    assert(opts.take(0) =~= Seq::<ControlOptionsView>::empty());
    while i < n
        invariant
            n == target.ctrl_opts@.len(),
            opts == target@.ctrl_opts,
            i <= n,
            strings_view(out@) == templated_commands(
                opts.take(i as int),
                text_map(handlers),
                text_map(data),
            ),
        decreases n - i,
    {
        let name = &target.ctrl_opts[i].name;
        assert(opts.take(i + 1).drop_last() =~= opts.take(i as int));
        assert(opts.take(i + 1).last() == target.ctrl_opts@[i as int]@);
        match handlers.get(name) {
            Some(template) => match data.get(name) {
                Some(value) => {
                    let pat = placeholder_of(name);
                    let command = replace(template.as_str(), pat.as_str(), value.as_str());
                    let ghost before = out@;
                    out.push(command);
                    assert(strings_view(out@) =~= strings_view(before).push(command@));
                },
                None => {},
            },
            None => {},
        }
        i = i + 1;
    }
    assert(opts.take(n as int) =~= opts);
    Ok(out)
}

impl DynamicDevice {
    /// The devices a dynamic hub drives: its one device.
    pub fn devices(&self) -> (res: Vec<Device>)
        ensures
            res@.len() == 1,
            res@[0]@ == self.device@,
    {
        let mut res = Vec::new();
        res.push(self.device.clone());
        res
    }
}

/// The commands for the options `p` then `q` are those for `p` followed by
/// those for `q`.
pub proof fn lemma_templated_commands_concat(
    p: Seq<ControlOptionsView>,
    q: Seq<ControlOptionsView>,
    handlers: Map<Seq<char>, Seq<char>>,
    data: Map<Seq<char>, Seq<char>>,
)
    ensures
        templated_commands(p + q, handlers, data) == templated_commands(p, handlers, data)
            + templated_commands(q, handlers, data),
    decreases q.len(),
{
    if q.len() == 0 {
        assert(p + q =~= p);
        assert(templated_commands(p, handlers, data) + templated_commands(q, handlers, data)
            =~= templated_commands(p, handlers, data));
    } else {
        lemma_templated_commands_concat(p, q.drop_last(), handlers, data);
        assert((p + q).drop_last() =~= p + q.drop_last());
        assert((p + q).last() == q.last());
        assert(templated_commands(p + q, handlers, data) =~= templated_commands(p, handlers, data)
            + templated_commands(q, handlers, data));
    }
}

/// One option, of any type, gives one command when it has a template and a
/// requested value (the template with `{name}` replaced by the value), and
/// none otherwise.
pub proof fn lemma_templated_commands_single(
    o: ControlOptionsView,
    handlers: Map<Seq<char>, Seq<char>>,
    data: Map<Seq<char>, Seq<char>>,
)
    ensures
        templated_commands(seq![o], handlers, data) == if handlers.contains_key(o.name)
            && data.contains_key(o.name) {
            seq![replace_all(handlers[o.name], placeholder(o.name), data[o.name])]
        } else {
            Seq::<Seq<char>>::empty()
        },
{
    let c = replace_all(handlers[o.name], placeholder(o.name), data[o.name]);
    assert(seq![o].drop_last() =~= Seq::<ControlOptionsView>::empty());
    assert(seq![o].last() == o);
    assert(templated_commands(Seq::<ControlOptionsView>::empty(), handlers, data)
        == Seq::<Seq<char>>::empty());
    assert(Seq::<Seq<char>>::empty().push(c) =~= seq![c]);
}

/// The placeholder of a name is `{`, the name, then `}`, and is never empty.
pub proof fn lemma_placeholder(name: Seq<char>)
    ensures
        placeholder(name) == seq!['{'] + name + seq!['}'],
        placeholder(name).len() == name.len() + 2,
{
    reveal_strlit("{");
    reveal_strlit("}");
    assert("{"@ =~= seq!['{']);
    assert("}"@ =~= seq!['}']);
}

} // verus!
