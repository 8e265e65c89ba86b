//! Device discovery for an RDM-style master/responder bus: identifiers, the
//! command frame codec, the decoder for branch replies and the bisection
//! search that enumerates the devices on the bus.
//!
//! - [`uid`], [`uid_order`], [`uid_text`]: the 48-bit identifier, its order
//!   and its text form.
//! - [`checksum`], [`packet`], [`codec_laws`]: the command frame and what
//!   holds of reading and writing it.
//! - [`branch`]: the reply to a branch query and its classification.
//! - [`outcome`], [`discovery`]: what a discovery run is, and the engine
//!   that makes one through a transport function.
//! - [`vouched`], [`completion`], [`bus_model`]: what holds of a run on any
//!   bus, on a bus that answers, and on the ideal bus.
//! - [`simulated`], [`end_to_end`]: a simulated bus with ten devices that
//!   are never muted, and what a run finds on it.
//! - [`muting`]: a bus whose devices can be muted, and what a run finds on
//!   it.
//! - [`params`], [`constants`]: parameter data of fixed layout and the
//!   protocol's numbers.

pub mod branch;
pub mod bus_model;
pub mod checksum;
pub mod codec_laws;
pub mod completion;
pub mod constants;
pub mod discovery;
pub mod end_to_end;
pub mod muting;
pub mod outcome;
pub mod packet;
pub mod params;
pub mod simulated;
mod text;
pub mod uid;
pub mod uid_order;
pub mod uid_text;
pub mod vouched;

pub use branch::DiscoveryResponse;
pub use discovery::{
    FnTransport,
    Transport,
    discovery_command,
    do_discovery_algo,
    do_discovery_through,
    do_discovery_node,
    do_discovery_recursion,
    mute_acknowledged,
    search_branch,
    send_mute_message,
};
pub use muting::{discover_on_muting_bus, MutingBus};
pub use packet::Pkt;
pub use params::{DeviceInfoPD, DeviceLabelPD, SensorDefinitionPD, SensorValuePD};
pub use end_to_end::discover_simulated;
pub use simulated::{encode_branch_reply, fake_rdm};
pub use uid::Uid;
pub use constants::{
    SC_RDM,
    SC_SUB_MESSAGE,
    SUB_DEVICE_ALL_CALL,
    DISCOVERY_COMMAND,
    DISCOVERY_COMMAND_RESPONSE,
    GET_COMMAND,
    GET_COMMAND_RESPONSE,
    SET_COMMAND,
    SET_COMMAND_RESPONSE,
    RESPONSE_TYPE_ACK,
    RESPONSE_TYPE_ACK_TIMER,
    RESPONSE_TYPE_NACK_REASON,
    RESPONSE_TYPE_ACK_OVERFLOW,
    DISC_UNIQUE_BRANCH,
    DISC_MUTE,
    DISC_UN_MUTE,
    PROXIED_DEVICES,
    PROXIED_DEVICE_COUNT,
    COMMS_STATUS,
    QUEUED_MESSAGE,
    STATUS_MESSAGES,
    STATUS_ID_DESCRIPTION,
    CLEAR_STATUS_ID,
    SUB_DEVICE_STATUS_REPORT_THRESHOLD,
    SUPPORTED_PARAMETERS,
    PARAMETER_DESCRIPTION,
    DEVICE_INFO,
    PRODUCT_DETAIL_ID_LIST,
    DEVICE_MODEL_DESCRIPTION,
    MANUFACTURER_LABEL,
    DEVICE_LABEL,
    FACTORY_DEFAULTS,
    LANGUAGE_CAPABILITIES,
    LANGUAGE,
    SOFTWARE_VERSION_LABEL,
    BOOT_SOFTWARE_VERSION_ID,
    BOOT_SOFTWARE_VERSION_LABEL,
    DMX_PERSONALITY,
    DMX_PERSONALITY_DESCRIPTION,
    DMX_START_ADDRESS,
    SLOT_INFO,
    SLOT_DESCRIPTION,
    DEFAULT_SLOT_VALUE,
    DMX_BLOCK_ADDRESS,
    DMX_FAIL_MODE,
    DMX_STARTUP_MODE,
    SENSOR_DEFINITION,
    SENSOR_VALUE,
    RECORD_SENSORS,
    DIMMER_INFO,
    MINIMUM_LEVEL,
    MAXIMUM_LEVEL,
    CURVE,
    CURVE_DESCRIPTION,
    OUTPUT_RESPONSE_TIME,
    OUTPUT_RESPONSE_TIME_DESCRIPTION,
    MODULATION_FREQUENCY,
    MODULATION_FREQUENCY_DESCRIPTION,
    DEVICE_HOURS,
    LAMP_HOURS,
    LAMP_STRIKES,
    LAMP_STATE,
    LAMP_ON_MODE,
    DEVICE_POWER_CYCLES,
    BURN_IN,
    DISPLAY_INVERT,
    DISPLAY_LEVEL,
    PAN_INVERT,
    TILT_INVERT,
    PAN_TILT_SWAP,
    REAL_TIME_CLOCK,
    LOCK_PIN,
    LOCK_STATE,
    LOCK_STATE_DESCRIPTION,
    IDENTIFY_DEVICE,
    RESET_DEVICE,
    POWER_STATE,
    PERFORM_SELFTEST,
    SELF_TEST_DESCRIPTION,
    CAPTURE_PRESET,
    PRESET_PLAYBACK,
    IDENTIFY_MODE,
    PRESET_INFO,
    PRESET_STATUS,
    PRESET_MERGEMODE,
    POWER_ON_SELF_TEST,
    SENS_TEMPERATURE,
    SENS_VOLTAGE,
    SENS_CURRENT,
    SENS_FREQUENCY,
    SENS_RESISTANCE,
    SENS_POWER,
    SENS_MASS,
    SENS_LENGTH,
    SENS_AREA,
    SENS_VOLUME,
    SENS_DENSITY,
    SENS_VELOCITY,
    SENS_ACCELERATION,
    SENS_FORCE,
    SENS_ENERGY,
    SENS_PRESSURE,
    SENS_TIME,
    SENS_ANGLE,
    SENS_POSITION_X,
    SENS_POSITION_Y,
    SENS_POSITION_Z,
    SENS_ANGULAR_VELOCITY,
    SENS_LUMINOUS_INTENSITY,
    SENS_LUMINOUS_FLUX,
    SENS_ILLUMINANCE,
    SENS_CHROMINANCE_RED,
    SENS_CHROMINANCE_GREEN,
    SENS_CHROMINANCE_BLUE,
    SENS_CONTACTS,
    SENS_MEMORY,
    SENS_ITEMS,
    SENS_HUMIDITY,
    SENS_COUNTER_16BIT,
    SENS_OTHER,
    UNITS_NONE,
    UNITS_CENTIGRADE,
    UNITS_VOLTS_DC,
    UNITS_VOLTS_AC_PEAK,
    UNITS_VOLTS_AC_RMS,
    UNITS_AMPERE_DC,
    UNITS_AMPERE_AC_PEAK,
    UNITS_AMPERE_AC_RMS,
    UNITS_HERTZ,
    UNITS_OHM,
    UNITS_WATT,
    UNITS_KILOGRAM,
    UNITS_METERS,
    UNITS_METERS_SQUARED,
    UNITS_METERS_CUBED,
    UNITS_KILOGRAMMES_PER_METER_CUBED,
    UNITS_METERS_PER_SECOND,
    UNITS_METERS_PER_SECOND_SQUARED,
    UNITS_NEWTON,
    UNITS_JOULE,
    UNITS_PASCAL,
    UNITS_SECOND,
    UNITS_DEGREE,
    UNITS_STERADIAN,
    UNITS_CANDELA,
    UNITS_LUMEN,
    UNITS_LUX,
    UNITS_IRE,
    UNITS_BYTE,
    PREFIX_NONE,
    PREFIX_DECI,
    PREFIX_CENTI,
    PREFIX_MILLI,
    PREFIX_MICRO,
    PREFIX_NANO,
    PREFIX_PICO,
    PREFIX_FEMPTO,
    PREFIX_ATTO,
    PREFIX_ZEPTO,
    PREFIX_YOCTO,
    PREFIX_DECA,
    PREFIX_HECTO,
    PREFIX_KILO,
    PREFIX_MEGA,
    PREFIX_GIGA,
    PREFIX_TERRA,
    PREFIX_PETA,
    PREFIX_EXA,
    PREFIX_ZETTA,
    PREFIX_YOTTA,
};
