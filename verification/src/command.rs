use vstd::prelude::*;
use crate::encoding::{
    encode_descriptor, encode_device_list, encode_request, encode_device_config,
    decode_descriptor, decode_device_list, decode_request, decode_device_config,
    lemma_descriptor_unique, lemma_device_list_unique, lemma_request_unique,
    lemma_device_config_unique,
};

verus! {

/// The first byte of a driver configuration descriptor.
pub const DRIVER_CONFIGURATION_DESCRIPTOR_ID: u8 = 0;

/// The first byte of a device list.
pub const DEVICE_LIST_ID: u8 = 1;

/// The first byte of a device configuration request.
pub const REQUEST_DEVICE_CONFIG_ID: u8 = 2;

/// The first byte of a device configuration.
pub const DEVICE_CONFIG_ID: u8 = 3;

/// The number that stands for a command that is not known.
pub const UNKNOWN_ID: u8 = 255;

// ---------------------------------------------------------------------------
// Mathematical values
// ---------------------------------------------------------------------------

/// The characters of each string.
pub open spec fn strings_view(v: Seq<String>) -> Seq<Seq<char>> {
    v.map_values(|s: String| s@)
}

/// The two string vectors of one configuration entry.
pub type ConfigPair = (Seq<Seq<char>>, Seq<Seq<char>>);

/// One configuration entry by its strings.
pub open spec fn pair_view(a: [Vec<String>; 2]) -> ConfigPair {
    (strings_view(a@[0]@), strings_view(a@[1]@))
}

/// The configuration entries by their strings.
pub open spec fn config_view(v: Seq<[Vec<String>; 2]>) -> Seq<ConfigPair> {
    v.map_values(|a: [Vec<String>; 2]| pair_view(a))
}

pub struct DescriptorModel {
    pub id: u8,
    pub vid: u16,
    pub pid: u16,
    pub device_name: Seq<char>,
    pub device_icon: Seq<u8>,
    pub mode_count: u8,
    pub shift_mode_count: u8,
    pub button_names: Seq<Seq<char>>,
}

pub struct DeviceListModel {
    pub id: u8,
    pub serial_numbers: Seq<Seq<char>>,
}

pub struct RequestModel {
    pub id: u8,
    pub serial_number: Seq<char>,
}

pub struct DeviceConfigModel {
    pub id: u8,
    pub serial_number: Seq<char>,
    pub config: Seq<ConfigPair>,
}

// ---------------------------------------------------------------------------
// Commands
// ---------------------------------------------------------------------------

/// A command that can be sent as bytes and read back.
pub trait CommandTrait: Sized {
    /// The bytes that stand for this command.
    spec fn encoding(&self) -> Seq<u8>;

    /// Whether `data` begins with the bytes of a command of this kind.
    spec fn decodes(data: Seq<u8>) -> bool;

    /// Whether this command is the one whose bytes begin `data`.
    spec fn decoded_from(&self, data: Seq<u8>) -> bool;

    /// The bytes of this command.
    fn to_bytes(&mut self) -> (r: Vec<u8>)
        ensures
            *final(self) == *old(self),
            r@ == old(self).encoding(),
    ;

    /// The command whose bytes begin `data`.
    fn from_bytes(data: Vec<u8>) -> (r: Self)
        requires
            Self::decodes(data@),
        ensures
            r.decoded_from(data@),
    ;
}

/// Describes a driver: its USB ids, its name and icon, its modes and the names
/// of its buttons.
#[derive(Clone, Debug)]
pub struct DriverConfigurationDescriptor {
    pub id: u8,
    pub vid: u16,
    pub pid: u16,
    pub device_name: String,
    pub device_icon: Vec<u8>,
    pub mode_count: u8,
    pub shift_mode_count: u8,
    pub button_name_vec: Vec<String>,
}

impl View for DriverConfigurationDescriptor {
    type V = DescriptorModel;

    open spec fn view(&self) -> DescriptorModel {
        DescriptorModel {
            id: self.id,
            vid: self.vid,
            pid: self.pid,
            device_name: self.device_name@,
            device_icon: self.device_icon@,
            mode_count: self.mode_count,
            shift_mode_count: self.shift_mode_count,
            button_names: strings_view(self.button_name_vec@),
        }
    }
}

impl Default for DriverConfigurationDescriptor {
    fn default() -> (r: DriverConfigurationDescriptor)
        ensures
            r@ == (DescriptorModel {
                id: 0,
                vid: 0,
                pid: 0,
                device_name: seq![],
                device_icon: seq![],
                mode_count: 0,
                shift_mode_count: 0,
                button_names: seq![],
            }),
    {
        let r = DriverConfigurationDescriptor {
            id: 0,
            vid: 0,
            pid: 0,
            device_name: String::new(),
            device_icon: Vec::new(),
            mode_count: 0,
            shift_mode_count: 0,
            button_name_vec: Vec::new(),
        };
        assert(strings_view(r.button_name_vec@) =~= seq![]);
        r
    }
}

impl DriverConfigurationDescriptor {
    /// A descriptor with the given fields, marked as a descriptor.
    pub fn new(
        vid: u16,
        pid: u16,
        device_name: String,
        device_icon: Vec<u8>,
        mode_count: u8,
        shift_mode_count: u8,
        button_name_vec: Vec<String>,
    ) -> (r: Self)
        ensures
            r@ == (DescriptorModel {
                id: DRIVER_CONFIGURATION_DESCRIPTOR_ID,
                vid,
                pid,
                device_name: device_name@,
                device_icon: device_icon@,
                mode_count,
                shift_mode_count,
                button_names: strings_view(button_name_vec@),
            }),
    {
        Self {
            id: DRIVER_CONFIGURATION_DESCRIPTOR_ID,
            vid,
            pid,
            device_name,
            device_icon,
            mode_count,
            shift_mode_count,
            button_name_vec,
        }
    }
}

/// The serial numbers of the devices that a driver handles.
#[derive(Clone, Debug)]
pub struct DeviceList {
    pub id: u8,
    pub serial_number_vec: Vec<String>,
}

impl View for DeviceList {
    type V = DeviceListModel;

    open spec fn view(&self) -> DeviceListModel {
        DeviceListModel { id: self.id, serial_numbers: strings_view(self.serial_number_vec@) }
    }
}

impl Default for DeviceList {
    fn default() -> (r: DeviceList)
        ensures
            r@ == (DeviceListModel { id: 0, serial_numbers: seq![] }),
    {
        let r = DeviceList { id: 0, serial_number_vec: Vec::new() };
        assert(strings_view(r.serial_number_vec@) =~= seq![]);
        r
    }
}

impl DeviceList {
    /// A device list with the given serial numbers, marked as a device list.
    pub fn new(serial_number_vec: Vec<String>) -> (r: Self)
        ensures
            r@ == (DeviceListModel {
                id: DEVICE_LIST_ID,
                serial_numbers: strings_view(serial_number_vec@),
            }),
    {
        Self { id: DEVICE_LIST_ID, serial_number_vec }
    }
}

/// Asks for the configuration of the device with a serial number.
#[derive(Clone, Debug)]
pub struct RequestDeviceConfig {
    pub id: u8,
    pub serial_number: String,
}

impl View for RequestDeviceConfig {
    type V = RequestModel;

    open spec fn view(&self) -> RequestModel {
        RequestModel { id: self.id, serial_number: self.serial_number@ }
    }
}

impl Default for RequestDeviceConfig {
    fn default() -> (r: RequestDeviceConfig)
        ensures
            r@ == (RequestModel { id: 0, serial_number: seq![] }),
    {
        RequestDeviceConfig { id: 0, serial_number: String::new() }
    }
}

impl RequestDeviceConfig {
    /// A request for the device with `serial_number`, marked as a request.
    pub fn new(serial_number: String) -> (r: Self)
        ensures
            r@ == (RequestModel { id: REQUEST_DEVICE_CONFIG_ID, serial_number: serial_number@ }),
    {
        Self { id: REQUEST_DEVICE_CONFIG_ID, serial_number }
    }
}

/// The configuration of the device with a serial number: for each entry, two
/// lists of names.
#[derive(Clone, Debug)]
pub struct DeviceConfig {
    pub id: u8,
    pub serial_number: String,
    pub config: Vec<[Vec<String>; 2]>,
}

impl View for DeviceConfig {
    type V = DeviceConfigModel;

    open spec fn view(&self) -> DeviceConfigModel {
        DeviceConfigModel {
            id: self.id,
            serial_number: self.serial_number@,
            config: config_view(self.config@),
        }
    }
}

impl Default for DeviceConfig {
    fn default() -> (r: DeviceConfig)
        ensures
            r@ == (DeviceConfigModel { id: 0, serial_number: seq![], config: seq![] }),
    {
        let r = DeviceConfig { id: 0, serial_number: String::new(), config: Vec::new() };
        assert(config_view(r.config@) =~= seq![]);
        r
    }
}

impl DeviceConfig {
    /// The configuration `config` of the device with `serial_number`, marked as
    /// a device configuration.
    pub fn new(serial_number: String, config: Vec<[Vec<String>; 2]>) -> (r: Self)
        ensures
            r@ == (DeviceConfigModel {
                id: DEVICE_CONFIG_ID,
                serial_number: serial_number@,
                config: config_view(config@),
            }),
    {
        Self { id: DEVICE_CONFIG_ID, serial_number, config }
    }
}

// ---------------------------------------------------------------------------
// The bytes of commands, by bincode
// ---------------------------------------------------------------------------

/// `bincode::serialize` on the fields of a descriptor, in order. Claims that it
/// succeeds and that the bytes are those of [`encode_descriptor`]: bincode's
/// default functions write integers little-endian in full width, lengths as
/// eight bytes, strings as their length then their UTF-8 bytes, and a struct
/// as its fields one after another; with no size limit nothing here can fail.
#[verifier::external_body]
fn bincode_serialize_descriptor(d: &DriverConfigurationDescriptor) -> (r: Vec<u8>)
    ensures
        r@ == encode_descriptor(d@),
{
    bincode::serialize(
        &(
            d.id,
            d.vid,
            d.pid,
            &d.device_name,
            &d.device_icon,
            d.mode_count,
            d.shift_mode_count,
            &d.button_name_vec,
        ),
    ).unwrap()
}

/// `bincode::deserialize` into the fields of a descriptor. Claims that what it
/// gives is a descriptor whose bytes begin `data` (bincode's default functions
/// leave trailing bytes unread), and that it gives one whenever such a
/// descriptor exists.
#[verifier::external_body]
fn bincode_deserialize_descriptor(data: &[u8]) -> (r: Option<DriverConfigurationDescriptor>)
    ensures
        r matches Some(d) ==> encode_descriptor(d@).is_prefix_of(data@),
        decode_descriptor(data@) is Some ==> r is Some,
{
    match bincode::deserialize::<(u8, u16, u16, String, Vec<u8>, u8, u8, Vec<String>)>(data) {
        Ok(t) => Some(
            DriverConfigurationDescriptor {
                id: t.0,
                vid: t.1,
                pid: t.2,
                device_name: t.3,
                device_icon: t.4,
                mode_count: t.5,
                shift_mode_count: t.6,
                button_name_vec: t.7,
            },
        ),
        Err(_) => None,
    }
}

/// `bincode::serialize` on the fields of a device list; as for a descriptor.
#[verifier::external_body]
fn bincode_serialize_device_list(d: &DeviceList) -> (r: Vec<u8>)
    ensures
        r@ == encode_device_list(d@),
{
    bincode::serialize(&(d.id, &d.serial_number_vec)).unwrap()
}

/// `bincode::deserialize` into the fields of a device list; as for a descriptor.
#[verifier::external_body]
fn bincode_deserialize_device_list(data: &[u8]) -> (r: Option<DeviceList>)
    ensures
        r matches Some(d) ==> encode_device_list(d@).is_prefix_of(data@),
        decode_device_list(data@) is Some ==> r is Some,
{
    match bincode::deserialize::<(u8, Vec<String>)>(data) {
        Ok(t) => Some(DeviceList { id: t.0, serial_number_vec: t.1 }),
        Err(_) => None,
    }
}

/// `bincode::serialize` on the fields of a request; as for a descriptor.
#[verifier::external_body]
fn bincode_serialize_request(d: &RequestDeviceConfig) -> (r: Vec<u8>)
    ensures
        r@ == encode_request(d@),
{
    bincode::serialize(&(d.id, &d.serial_number)).unwrap()
}

/// `bincode::deserialize` into the fields of a request; as for a descriptor.
#[verifier::external_body]
fn bincode_deserialize_request(data: &[u8]) -> (r: Option<RequestDeviceConfig>)
    ensures
        r matches Some(d) ==> encode_request(d@).is_prefix_of(data@),
        decode_request(data@) is Some ==> r is Some,
{
    match bincode::deserialize::<(u8, String)>(data) {
        Ok(t) => Some(RequestDeviceConfig { id: t.0, serial_number: t.1 }),
        Err(_) => None,
    }
}

/// `bincode::serialize` on the fields of a device configuration; as for a
/// descriptor (an array of two is written as its two items, with no length).
#[verifier::external_body]
fn bincode_serialize_device_config(d: &DeviceConfig) -> (r: Vec<u8>)
    ensures
        r@ == encode_device_config(d@),
{
    bincode::serialize(&(d.id, &d.serial_number, &d.config)).unwrap()
}

/// `bincode::deserialize` into the fields of a device configuration; as for a
/// descriptor.
#[verifier::external_body]
fn bincode_deserialize_device_config(data: &[u8]) -> (r: Option<DeviceConfig>)
    ensures
        r matches Some(d) ==> encode_device_config(d@).is_prefix_of(data@),
        decode_device_config(data@) is Some ==> r is Some,
{
    match bincode::deserialize::<(u8, String, Vec<[Vec<String>; 2]>)>(data) {
        Ok(t) => Some(DeviceConfig { id: t.0, serial_number: t.1, config: t.2 }),
        Err(_) => None,
    }
}

impl CommandTrait for DriverConfigurationDescriptor {
    open spec fn encoding(&self) -> Seq<u8> {
        encode_descriptor(self@)
    }

    open spec fn decodes(data: Seq<u8>) -> bool {
        decode_descriptor(data) is Some
    }

    open spec fn decoded_from(&self, data: Seq<u8>) -> bool {
        decode_descriptor(data) == Some(self@)
    }

    fn to_bytes(&mut self) -> (r: Vec<u8>) {
        bincode_serialize_descriptor(self)
    }

    fn from_bytes(data: Vec<u8>) -> (r: Self) {
        let n = data.len();
        assert(data@.len() == n);
        match bincode_deserialize_descriptor(data.as_slice()) {
            Some(d) => {
                proof {
                    let c = choose|c: DescriptorModel| #[trigger]
                        encode_descriptor(c).is_prefix_of(data@);
                    lemma_descriptor_unique(d@, c, data@);
                }
                d
            },
            None => {
                proof {
                    assert(false);
                }
                DriverConfigurationDescriptor::default()
            },
        }
    }
}

impl CommandTrait for DeviceList {
    open spec fn encoding(&self) -> Seq<u8> {
        encode_device_list(self@)
    }

    open spec fn decodes(data: Seq<u8>) -> bool {
        decode_device_list(data) is Some
    }

    open spec fn decoded_from(&self, data: Seq<u8>) -> bool {
        decode_device_list(data) == Some(self@)
    }

    fn to_bytes(&mut self) -> (r: Vec<u8>) {
        bincode_serialize_device_list(self)
    }

    fn from_bytes(data: Vec<u8>) -> (r: Self) {
        let n = data.len();
        assert(data@.len() == n);
        match bincode_deserialize_device_list(data.as_slice()) {
            Some(d) => {
                proof {
                    let c = choose|c: DeviceListModel| #[trigger]
                        encode_device_list(c).is_prefix_of(data@);
                    lemma_device_list_unique(d@, c, data@);
                }
                d
            },
            None => {
                proof {
                    assert(false);
                }
                DeviceList::default()
            },
        }
    }
}

impl CommandTrait for RequestDeviceConfig {
    open spec fn encoding(&self) -> Seq<u8> {
        encode_request(self@)
    }

    open spec fn decodes(data: Seq<u8>) -> bool {
        decode_request(data) is Some
    }

    open spec fn decoded_from(&self, data: Seq<u8>) -> bool {
        decode_request(data) == Some(self@)
    }

    fn to_bytes(&mut self) -> (r: Vec<u8>) {
        bincode_serialize_request(self)
    }

    fn from_bytes(data: Vec<u8>) -> (r: Self) {
        let n = data.len();
        assert(data@.len() == n);
        match bincode_deserialize_request(data.as_slice()) {
            Some(d) => {
                proof {
                    let c = choose|c: RequestModel| #[trigger]
                        encode_request(c).is_prefix_of(data@);
                    lemma_request_unique(d@, c, data@);
                }
                d
            },
            None => {
                proof {
                    assert(false);
                }
                RequestDeviceConfig::default()
            },
        }
    }
}

impl CommandTrait for DeviceConfig {
    open spec fn encoding(&self) -> Seq<u8> {
        encode_device_config(self@)
    }

    open spec fn decodes(data: Seq<u8>) -> bool {
        decode_device_config(data) is Some
    }

    open spec fn decoded_from(&self, data: Seq<u8>) -> bool {
        decode_device_config(data) == Some(self@)
    }

    fn to_bytes(&mut self) -> (r: Vec<u8>) {
        bincode_serialize_device_config(self)
    }

    fn from_bytes(data: Vec<u8>) -> (r: Self) {
        let n = data.len();
        assert(data@.len() == n);
        match bincode_deserialize_device_config(data.as_slice()) {
            Some(d) => {
                proof {
                    let c = choose|c: DeviceConfigModel| #[trigger]
                        encode_device_config(c).is_prefix_of(data@);
                    lemma_device_config_unique(d@, c, data@);
                }
                d
            },
            None => {
                proof {
                    assert(false);
                }
                DeviceConfig::default()
            },
        }
    }
}

// ---------------------------------------------------------------------------
// Laws
// ---------------------------------------------------------------------------

/// A descriptor is read back from its bytes.
pub proof fn law_descriptor_roundtrip(d: DescriptorModel)
    requires
        encode_descriptor(d).len() <= u64::MAX,
    ensures
        decode_descriptor(encode_descriptor(d)) == Some(d),
{
    let data = encode_descriptor(d);
    assert(encode_descriptor(d).is_prefix_of(data));
    let c = choose|c: DescriptorModel| #[trigger] encode_descriptor(c).is_prefix_of(data);
    lemma_descriptor_unique(c, d, data);
}

/// A device list is read back from its bytes.
pub proof fn law_device_list_roundtrip(d: DeviceListModel)
    requires
        encode_device_list(d).len() <= u64::MAX,
    ensures
        decode_device_list(encode_device_list(d)) == Some(d),
{
    let data = encode_device_list(d);
    assert(encode_device_list(d).is_prefix_of(data));
    let c = choose|c: DeviceListModel| #[trigger] encode_device_list(c).is_prefix_of(data);
    lemma_device_list_unique(c, d, data);
}

/// A request is read back from its bytes.
pub proof fn law_request_roundtrip(d: RequestModel)
    requires
        encode_request(d).len() <= u64::MAX,
    ensures
        decode_request(encode_request(d)) == Some(d),
{
    let data = encode_request(d);
    assert(encode_request(d).is_prefix_of(data));
    let c = choose|c: RequestModel| #[trigger] encode_request(c).is_prefix_of(data);
    lemma_request_unique(c, d, data);
}

/// A device configuration is read back from its bytes.
pub proof fn law_device_config_roundtrip(d: DeviceConfigModel)
    requires
        encode_device_config(d).len() <= u64::MAX,
    ensures
        decode_device_config(encode_device_config(d)) == Some(d),
{
    let data = encode_device_config(d);
    assert(encode_device_config(d).is_prefix_of(data));
    let c = choose|c: DeviceConfigModel| #[trigger] encode_device_config(c).is_prefix_of(data);
    lemma_device_config_unique(c, d, data);
}


} // verus!
