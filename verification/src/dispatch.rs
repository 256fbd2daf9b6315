use vstd::prelude::*;
use vstd::std_specs::cmp::PartialEqSpecImpl;
use vstd::std_specs::cmp::PartialEqSpec;
use crate::command::{
    DriverConfigurationDescriptor, DeviceList, RequestDeviceConfig, DeviceConfig, CommandTrait,
    DescriptorModel, DeviceListModel, RequestModel, DeviceConfigModel,
    DRIVER_CONFIGURATION_DESCRIPTOR_ID, DEVICE_LIST_ID, REQUEST_DEVICE_CONFIG_ID, DEVICE_CONFIG_ID,
    UNKNOWN_ID, law_descriptor_roundtrip, law_device_list_roundtrip, law_request_roundtrip,
    law_device_config_roundtrip,
};
use crate::encoding::{
    encode_descriptor, encode_device_list, encode_request, encode_device_config,
    decode_descriptor, decode_device_list, decode_request, decode_device_config,
};

verus! {

// ---------------------------------------------------------------------------
// A command of any kind
// ---------------------------------------------------------------------------

/// A command of one of the known kinds, or one that is not known.
#[derive(Clone, Debug)]
pub enum Commands {
    DriverConfigurationDescriptor(DriverConfigurationDescriptor),
    DeviceList(DeviceList),
    RequestDeviceConfig(RequestDeviceConfig),
    DeviceConfig(DeviceConfig),
    Unknown,
}

/// The mathematical value of a [`Commands`].
pub enum CommandsModel {
    DriverConfigurationDescriptor(DescriptorModel),
    DeviceList(DeviceListModel),
    RequestDeviceConfig(RequestModel),
    DeviceConfig(DeviceConfigModel),
    Unknown,
}

impl View for Commands {
    type V = CommandsModel;

    open spec fn view(&self) -> CommandsModel {
        match self {
            Commands::DriverConfigurationDescriptor(d) => CommandsModel::DriverConfigurationDescriptor(
                d@,
            ),
            Commands::DeviceList(d) => CommandsModel::DeviceList(d@),
            Commands::RequestDeviceConfig(d) => CommandsModel::RequestDeviceConfig(d@),
            Commands::DeviceConfig(d) => CommandsModel::DeviceConfig(d@),
            Commands::Unknown => CommandsModel::Unknown,
        }
    }
}

/// The number that stands for a command's kind.
pub open spec fn kind_id(c: CommandsModel) -> u8 {
    match c {
        CommandsModel::DriverConfigurationDescriptor(_) => DRIVER_CONFIGURATION_DESCRIPTOR_ID,
        CommandsModel::DeviceList(_) => DEVICE_LIST_ID,
        CommandsModel::RequestDeviceConfig(_) => REQUEST_DEVICE_CONFIG_ID,
        CommandsModel::DeviceConfig(_) => DEVICE_CONFIG_ID,
        CommandsModel::Unknown => UNKNOWN_ID,
    }
}

/// Whether bytes that begin with a known kind's number hold a command of that kind.
pub open spec fn readable(value: Seq<u8>) -> bool {
    &&& value.len() > 0
    &&& value[0] == DRIVER_CONFIGURATION_DESCRIPTOR_ID ==> decode_descriptor(value) is Some
    &&& value[0] == DEVICE_LIST_ID ==> decode_device_list(value) is Some
    &&& value[0] == REQUEST_DEVICE_CONFIG_ID ==> decode_request(value) is Some
    &&& value[0] == DEVICE_CONFIG_ID ==> decode_device_config(value) is Some
}

/// The command that bytes stand for: the first byte gives the kind, and the
/// whole of them are read back into a command of that kind.
pub open spec fn read_command(value: Seq<u8>) -> CommandsModel {
    if value[0] == DRIVER_CONFIGURATION_DESCRIPTOR_ID {
        CommandsModel::DriverConfigurationDescriptor(decode_descriptor(value).unwrap())
    } else if value[0] == DEVICE_LIST_ID {
        CommandsModel::DeviceList(decode_device_list(value).unwrap())
    } else if value[0] == REQUEST_DEVICE_CONFIG_ID {
        CommandsModel::RequestDeviceConfig(decode_request(value).unwrap())
    } else if value[0] == DEVICE_CONFIG_ID {
        CommandsModel::DeviceConfig(decode_device_config(value).unwrap())
    } else {
        CommandsModel::Unknown
    }
}

impl Commands {
    fn id(&self) -> (r: u8)
        ensures
            r == kind_id(self@),
    {
        match self {
            Commands::DriverConfigurationDescriptor(_) => DRIVER_CONFIGURATION_DESCRIPTOR_ID,
            Commands::DeviceList(_) => DEVICE_LIST_ID,
            Commands::RequestDeviceConfig(_) => REQUEST_DEVICE_CONFIG_ID,
            Commands::DeviceConfig(_) => DEVICE_CONFIG_ID,
            Commands::Unknown => UNKNOWN_ID,
        }
    }

    /// Whether `value` (which must not be empty) begins with the number of this
    /// command's kind.
    pub fn test(self, value: &Vec<u8>) -> (r: bool)
        requires
            value@.len() > 0,
        ensures
            r == (kind_id(self@) == value@[0]),
    {
        self.id() == value[0]
    }

    /// The number that stands for this command's kind.
    pub fn into(self) -> (r: u8)
        ensures
            r == kind_id(self@),
    {
        self.id()
    }

    /// The command that `value` stands for: its first byte gives the kind, and
    /// for a known kind the bytes are read into a command of it. `value` must not
    /// be empty, and for a known kind it must hold such a command.
    pub fn from(value: Vec<u8>) -> (r: Commands)
        requires
            readable(value@),
        ensures
            r@ == read_command(value@),
    {
        let tag = value[0];
        if tag == DRIVER_CONFIGURATION_DESCRIPTOR_ID {
            Commands::DriverConfigurationDescriptor(DriverConfigurationDescriptor::from_bytes(value))
        } else if tag == DEVICE_LIST_ID {
            Commands::DeviceList(DeviceList::from_bytes(value))
        } else if tag == REQUEST_DEVICE_CONFIG_ID {
            Commands::RequestDeviceConfig(RequestDeviceConfig::from_bytes(value))
        } else if tag == DEVICE_CONFIG_ID {
            Commands::DeviceConfig(DeviceConfig::from_bytes(value))
        } else {
            Commands::Unknown
        }
    }
}

impl PartialEq<u8> for Commands {
    fn eq(&self, other: &u8) -> (r: bool) {
        self.id() == *other
    }
}

impl PartialEqSpecImpl<u8> for Commands {
    open spec fn obeys_eq_spec() -> bool {
        true
    }

    open spec fn eq_spec(&self, other: &u8) -> bool {
        kind_id(self@) == *other
    }
}

impl PartialEq<Vec<u8>> for Commands {
    fn eq(&self, other: &Vec<u8>) -> (r: bool) {
        other.len() > 0 && self.id() == other[0]
    }
}

impl PartialEqSpecImpl<Vec<u8>> for Commands {
    open spec fn obeys_eq_spec() -> bool {
        true
    }

    open spec fn eq_spec(&self, other: &Vec<u8>) -> bool {
        other@.len() > 0 && kind_id(self@) == other@[0]
    }
}

// ---------------------------------------------------------------------------
// Laws
// ---------------------------------------------------------------------------

/// The bytes of a command of a known kind are read back, by their first byte,
/// into that command.
pub proof fn law_command_bytes_read_back(c: CommandsModel)
    requires
        !(c is Unknown),
        c matches CommandsModel::DriverConfigurationDescriptor(d) ==> d.id
            == DRIVER_CONFIGURATION_DESCRIPTOR_ID && encode_descriptor(d).len() <= u64::MAX,
        c matches CommandsModel::DeviceList(d) ==> d.id == DEVICE_LIST_ID && encode_device_list(
            d,
        ).len() <= u64::MAX,
        c matches CommandsModel::RequestDeviceConfig(d) ==> d.id == REQUEST_DEVICE_CONFIG_ID
            && encode_request(d).len() <= u64::MAX,
        c matches CommandsModel::DeviceConfig(d) ==> d.id == DEVICE_CONFIG_ID
            && encode_device_config(d).len() <= u64::MAX,
    ensures
        readable(command_bytes(c)),
        read_command(command_bytes(c)) == c,
{
    match c {
        CommandsModel::DriverConfigurationDescriptor(d) => {
            law_descriptor_roundtrip(d);
        },
        CommandsModel::DeviceList(d) => {
            law_device_list_roundtrip(d);
        },
        CommandsModel::RequestDeviceConfig(d) => {
            law_request_roundtrip(d);
        },
        CommandsModel::DeviceConfig(d) => {
            law_device_config_roundtrip(d);
        },
        CommandsModel::Unknown => {},
    }
}

/// The bytes of a command of a known kind.
pub open spec fn command_bytes(c: CommandsModel) -> Seq<u8> {
    match c {
        CommandsModel::DriverConfigurationDescriptor(d) => encode_descriptor(d),
        CommandsModel::DeviceList(d) => encode_device_list(d),
        CommandsModel::RequestDeviceConfig(d) => encode_request(d),
        CommandsModel::DeviceConfig(d) => encode_device_config(d),
        CommandsModel::Unknown => seq![],
    }
}

/// Two commands share a kind's number exactly when they are of one kind: a command tests
/// true against exactly the bytes that begin with its number.
pub proof fn law_kind_id_distinct(a: CommandsModel, b: CommandsModel)
    ensures
        kind_id(a) == kind_id(b) <==> (a is DriverConfigurationDescriptor
            && b is DriverConfigurationDescriptor) || (a is DeviceList && b is DeviceList) || (
        a is RequestDeviceConfig && b is RequestDeviceConfig) || (a is DeviceConfig
            && b is DeviceConfig) || (a is Unknown && b is Unknown),
{
}

/// A command equals a number exactly when the number is its kind's number, so
/// each command equals one number and no other.
pub proof fn law_command_equals_only_its_kind(c: Commands, b: u8)
    ensures
        PartialEqSpec::eq_spec(&c, &b) <==> b == kind_id(c@),
        PartialEqSpec::eq_spec(&c, &kind_id(c@)),
        forall|b1: u8, b2: u8| PartialEqSpec::eq_spec(&c, &b1) && PartialEqSpec::eq_spec(&c, &b2) ==> b1 == b2,
{
}

/// A command equals bytes exactly when they begin with its kind's number; it
/// equals no empty bytes.
pub proof fn law_command_equals_bytes_of_its_kind(c: Commands, v: Vec<u8>)
    ensures
        PartialEqSpec::eq_spec(&c, &v) <==> (v@.len() > 0 && v@[0] == kind_id(c@)),
{
}

/// The kinds' numbers: a driver configuration descriptor is 0, a device list 1,
/// a device configuration request 2, a device configuration 3, an unknown
/// command 255.
pub proof fn law_kind_numbers(c: CommandsModel)
    ensures
        c is DriverConfigurationDescriptor ==> kind_id(c) == 0,
        c is Unknown ==> kind_id(c) == 255,
        c is DeviceList ==> kind_id(c) == 1,
        c is RequestDeviceConfig ==> kind_id(c) == 2,
        c is DeviceConfig ==> kind_id(c) == 3,
{
}

} // verus!
