use vstd::prelude::*;

use crate::parameter::{ParameterDefinition, ParameterMode};
use crate::types::Rate;
use crate::unit::{ChannelLayout, UnitBehavior, UnitDefinition, UnitKind};

verus! {

/// The closed registry mapping a numeric unit type id to its static
/// description. The built-in types are registered at construction, in a
/// fixed order, so a type id is simply an index.
pub struct UnitFactory {
    units: Vec<UnitDefinition>,
}

/// What one registry entry declares, as the constructor promises it:
/// its role in the flow, its rates, its behavior and its sizes.
pub open spec fn definition_shape(
    d: UnitDefinition,
    kind: UnitKind,
    input_rate: Option<Rate>,
    output_rate: Option<Rate>,
    behavior: UnitBehavior,
    num_params: int,
    data_size: int,
) -> bool {
    &&& d.kind == kind
    &&& d.input_rate == input_rate
    &&& d.output_rate == output_rate
    &&& d.behavior == behavior
    &&& d.num_params == num_params
    &&& d.data_size == data_size
}

/// A parameter slot left undeclared.
pub fn blank_parameter() -> (r: ParameterDefinition)
    ensures
        r.rate == Rate::Control,
        r.mode == ParameterMode::Normal,
        r.default == 0,
{
    ParameterDefinition { name: "", default: 0, rate: Rate::Control, mode: ParameterMode::Normal }
}

impl UnitFactory {
    /// The registered definitions, by type id.
    pub closed spec fn view(&self) -> Seq<UnitDefinition> {
        self.units@
    }

    /// Every registered definition is internally consistent.
    pub open spec fn wf(&self) -> bool {
        forall|i: int| 0 <= i < self@.len() ==> (#[trigger] self@[i]).wf()
    }

    /// A registry holding the built-in unit types: sine and saw
    /// oscillators, bus endpoints, parameter sources and writers, an
    /// attack-release envelope — each at audio and control rate — and the
    /// control-to-audio rate converter.
    pub fn new() -> (r: UnitFactory)
        ensures
            r.wf(),
            r@.len() == 15,
            definition_shape(
                r@[0],
                UnitKind::Source,
                None,
                Some(Rate::Audio),
                UnitBehavior::External,
                2,
                1,
            ),
            definition_shape(
                r@[1],
                UnitKind::Source,
                None,
                Some(Rate::Control),
                UnitBehavior::External,
                2,
                1,
            ),
            definition_shape(
                r@[2],
                UnitKind::Source,
                None,
                Some(Rate::Audio),
                UnitBehavior::External,
                2,
                1,
            ),
            definition_shape(
                r@[3],
                UnitKind::Source,
                None,
                Some(Rate::Control),
                UnitBehavior::External,
                2,
                1,
            ),
            definition_shape(
                r@[4],
                UnitKind::Source,
                None,
                Some(Rate::Audio),
                UnitBehavior::BusIn,
                1,
                0,
            ),
            definition_shape(
                r@[5],
                UnitKind::Source,
                None,
                Some(Rate::Control),
                UnitBehavior::BusIn,
                1,
                0,
            ),
            definition_shape(
                r@[6],
                UnitKind::Sink,
                Some(Rate::Audio),
                None,
                UnitBehavior::BusOut,
                1,
                0,
            ),
            definition_shape(
                r@[7],
                UnitKind::Sink,
                Some(Rate::Control),
                None,
                UnitBehavior::BusOut,
                1,
                0,
            ),
            definition_shape(
                r@[8],
                UnitKind::Source,
                None,
                Some(Rate::Audio),
                UnitBehavior::ParameterSource,
                1,
                0,
            ),
            definition_shape(
                r@[9],
                UnitKind::Source,
                None,
                Some(Rate::Control),
                UnitBehavior::ParameterSource,
                1,
                0,
            ),
            definition_shape(
                r@[10],
                UnitKind::Sink,
                Some(Rate::Audio),
                None,
                UnitBehavior::ParameterWriter,
                3,
                0,
            ),
            definition_shape(
                r@[11],
                UnitKind::Sink,
                Some(Rate::Control),
                None,
                UnitBehavior::ParameterWriter,
                3,
                0,
            ),
            definition_shape(
                r@[12],
                UnitKind::Source,
                None,
                Some(Rate::Audio),
                UnitBehavior::External,
                3,
                3,
            ),
            definition_shape(
                r@[13],
                UnitKind::Source,
                None,
                Some(Rate::Control),
                UnitBehavior::External,
                3,
                3,
            ),
            definition_shape(
                r@[14],
                UnitKind::Processor,
                Some(Rate::Control),
                Some(Rate::Audio),
                UnitBehavior::KrToAr,
                0,
                0,
            ),
    {
        let mut factory = UnitFactory { units: Vec::new() };
        let blank = blank_parameter();
        let frequency_ar = ParameterDefinition {
            name: "frequency",
            default: 440,
            rate: Rate::Audio,
            mode: ParameterMode::Interpolate,
        };
        let phase_ar = ParameterDefinition {
            name: "phase",
            default: 0,
            rate: Rate::Audio,
            mode: ParameterMode::Interpolate,
        };
        let frequency_kr = ParameterDefinition {
            name: "frequency",
            default: 440,
            rate: Rate::Control,
            mode: ParameterMode::Normal,
        };
        let phase_kr = ParameterDefinition {
            name: "phase",
            default: 0,
            rate: Rate::Control,
            mode: ParameterMode::Normal,
        };
        let bus_id = ParameterDefinition {
            name: "bus_id",
            default: 0,
            rate: Rate::Control,
            mode: ParameterMode::Normal,
        };
        factory.register(UnitDefinition {
            name: "sine_ar",
            kind: UnitKind::Source,
            input_rate: None,
            output_rate: Some(Rate::Audio),
            default_layout: ChannelLayout { input: 0, output: 1 },
            params: [frequency_ar, phase_ar, blank, blank],
            num_params: 2,
            behavior: UnitBehavior::External,
            data_size: 1,
        });
        factory.register(UnitDefinition {
            name: "sine_kr",
            kind: UnitKind::Source,
            input_rate: None,
            output_rate: Some(Rate::Control),
            default_layout: ChannelLayout { input: 0, output: 1 },
            params: [frequency_kr, phase_kr, blank, blank],
            num_params: 2,
            behavior: UnitBehavior::External,
            data_size: 1,
        });
        factory.register(UnitDefinition {
            name: "saw_ar",
            kind: UnitKind::Source,
            input_rate: None,
            output_rate: Some(Rate::Audio),
            default_layout: ChannelLayout { input: 0, output: 1 },
            params: [frequency_ar, phase_ar, blank, blank],
            num_params: 2,
            behavior: UnitBehavior::External,
            data_size: 1,
        });
        factory.register(UnitDefinition {
            name: "saw_kr",
            kind: UnitKind::Source,
            input_rate: None,
            output_rate: Some(Rate::Control),
            default_layout: ChannelLayout { input: 0, output: 1 },
            params: [frequency_kr, phase_kr, blank, blank],
            num_params: 2,
            behavior: UnitBehavior::External,
            data_size: 1,
        });
        factory.register(UnitDefinition {
            name: "bus_in_ar",
            kind: UnitKind::Source,
            input_rate: None,
            output_rate: Some(Rate::Audio),
            default_layout: ChannelLayout { input: 0, output: 1 },
            params: [bus_id, blank, blank, blank],
            num_params: 1,
            behavior: UnitBehavior::BusIn,
            data_size: 0,
        });
        factory.register(UnitDefinition {
            name: "bus_in_kr",
            kind: UnitKind::Source,
            input_rate: None,
            output_rate: Some(Rate::Control),
            default_layout: ChannelLayout { input: 0, output: 1 },
            params: [bus_id, blank, blank, blank],
            num_params: 1,
            behavior: UnitBehavior::BusIn,
            data_size: 0,
        });
        factory.register(UnitDefinition {
            name: "bus_out_ar",
            kind: UnitKind::Sink,
            input_rate: Some(Rate::Audio),
            output_rate: None,
            default_layout: ChannelLayout { input: 1, output: 0 },
            params: [bus_id, blank, blank, blank],
            num_params: 1,
            behavior: UnitBehavior::BusOut,
            data_size: 0,
        });
        factory.register(UnitDefinition {
            name: "bus_out_kr",
            kind: UnitKind::Sink,
            input_rate: Some(Rate::Control),
            output_rate: None,
            default_layout: ChannelLayout { input: 1, output: 0 },
            params: [bus_id, blank, blank, blank],
            num_params: 1,
            behavior: UnitBehavior::BusOut,
            data_size: 0,
        });
        factory.register(UnitDefinition {
            name: "parameter_ar",
            kind: UnitKind::Source,
            input_rate: None,
            output_rate: Some(Rate::Audio),
            default_layout: ChannelLayout { input: 0, output: 1 },
            params: [
                ParameterDefinition {
                    name: "value",
                    default: 0,
                    rate: Rate::Audio,
                    mode: ParameterMode::Interpolate,
                },
                blank,
                blank,
                blank,
            ],
            num_params: 1,
            behavior: UnitBehavior::ParameterSource,
            data_size: 0,
        });
        factory.register(UnitDefinition {
            name: "parameter_kr",
            kind: UnitKind::Source,
            input_rate: None,
            output_rate: Some(Rate::Control),
            default_layout: ChannelLayout { input: 0, output: 1 },
            params: [
                ParameterDefinition {
                    name: "value",
                    default: 0,
                    rate: Rate::Control,
                    mode: ParameterMode::Normal,
                },
                blank,
                blank,
                blank,
            ],
            num_params: 1,
            behavior: UnitBehavior::ParameterSource,
            data_size: 0,
        });
        let target_eid = ParameterDefinition {
            name: "eid",
            default: 0,
            rate: Rate::Control,
            mode: ParameterMode::Normal,
        };
        let target_uid = ParameterDefinition {
            name: "uid",
            default: 0,
            rate: Rate::Control,
            mode: ParameterMode::Normal,
        };
        let target_pid = ParameterDefinition {
            name: "pid",
            default: 0,
            rate: Rate::Control,
            mode: ParameterMode::Normal,
        };
        factory.register(UnitDefinition {
            name: "parameter_writer_ar",
            kind: UnitKind::Sink,
            input_rate: Some(Rate::Audio),
            output_rate: None,
            default_layout: ChannelLayout { input: 1, output: 0 },
            params: [target_eid, target_uid, target_pid, blank],
            num_params: 3,
            behavior: UnitBehavior::ParameterWriter,
            data_size: 0,
        });
        factory.register(UnitDefinition {
            name: "parameter_writer_kr",
            kind: UnitKind::Sink,
            input_rate: Some(Rate::Control),
            output_rate: None,
            default_layout: ChannelLayout { input: 1, output: 0 },
            params: [target_eid, target_uid, target_pid, blank],
            num_params: 3,
            behavior: UnitBehavior::ParameterWriter,
            data_size: 0,
        });
        let gate_ar = ParameterDefinition {
            name: "gate",
            default: 1,
            rate: Rate::Audio,
            mode: ParameterMode::Trigger,
        };
        let gate_kr = ParameterDefinition {
            name: "gate",
            default: 1,
            rate: Rate::Control,
            mode: ParameterMode::Trigger,
        };
        let attack = ParameterDefinition {
            name: "attack",
            default: 1,
            rate: Rate::Control,
            mode: ParameterMode::Normal,
        };
        let release = ParameterDefinition {
            name: "release",
            default: 1,
            rate: Rate::Control,
            mode: ParameterMode::Normal,
        };
        factory.register(UnitDefinition {
            name: "ar_envelope_ar",
            kind: UnitKind::Source,
            input_rate: None,
            output_rate: Some(Rate::Audio),
            default_layout: ChannelLayout { input: 0, output: 1 },
            params: [gate_ar, attack, release, blank],
            num_params: 3,
            behavior: UnitBehavior::External,
            data_size: 3,
        });
        factory.register(UnitDefinition {
            name: "ar_envelope_kr",
            kind: UnitKind::Source,
            input_rate: None,
            output_rate: Some(Rate::Control),
            default_layout: ChannelLayout { input: 0, output: 1 },
            params: [gate_kr, attack, release, blank],
            num_params: 3,
            behavior: UnitBehavior::External,
            data_size: 3,
        });
        factory.register(UnitDefinition {
            name: "kr_to_ar",
            kind: UnitKind::Processor,
            input_rate: Some(Rate::Control),
            output_rate: Some(Rate::Audio),
            default_layout: ChannelLayout { input: 1, output: 1 },
            params: [blank, blank, blank, blank],
            num_params: 0,
            behavior: UnitBehavior::KrToAr,
            data_size: 0,
        });
        factory
    }

    /// Register one more unit type under the next free type id.
    pub fn register(&mut self, definition: UnitDefinition)
        requires
            old(self).wf(),
            definition.wf(),
        ensures
            final(self).wf(),
            final(self)@ == old(self)@.push(definition),
    {
        self.units.push(definition);
    }

    /// How many unit types are registered.
    pub fn len(&self) -> (r: usize)
        ensures
            r == self@.len(),
    {
        self.units.len()
    }

    /// Whether `type_id` names a registered unit type.
    pub fn is_registered(&self, type_id: u32) -> (r: bool)
        ensures
            r == (type_id < self@.len()),
    {
        (type_id as usize) < self.units.len()
    }

    /// The definition registered under `type_id`, if any.
    pub fn get_definition(&self, type_id: u32) -> (r: Option<UnitDefinition>)
        ensures
            match r {
                Some(d) => type_id < self@.len() && d == self@[type_id as int],
                None => type_id >= self@.len(),
            },
    {
        if (type_id as usize) < self.units.len() {
            Some(self.units[type_id as usize])
        } else {
            None
        }
    }
}

} // verus!
