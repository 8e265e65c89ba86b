//! The numbers of the protocol: start codes, command classes, response
//! types, parameter ids, and the types, units and prefixes of sensors.

use vstd::prelude::*;

verus! {

// Start codes.
pub const SC_RDM: u8 = 0xCC;
pub const SC_SUB_MESSAGE: u8 = 0x01;

// Sub-devices.
pub const SUB_DEVICE_ALL_CALL: u16 = 0xFFFF;

// Command classes.
pub const DISCOVERY_COMMAND: u8 = 0x10;
pub const DISCOVERY_COMMAND_RESPONSE: u8 = 0x11;
pub const GET_COMMAND: u8 = 0x20;
pub const GET_COMMAND_RESPONSE: u8 = 0x21;
pub const SET_COMMAND: u8 = 0x30;
pub const SET_COMMAND_RESPONSE: u8 = 0x31;

// Response types.
pub const RESPONSE_TYPE_ACK: u8 = 0x00;
pub const RESPONSE_TYPE_ACK_TIMER: u8 = 0x01;
pub const RESPONSE_TYPE_NACK_REASON: u8 = 0x02;
pub const RESPONSE_TYPE_ACK_OVERFLOW: u8 = 0x03;

// Parameter ids: network management.
pub const DISC_UNIQUE_BRANCH: u16 = 0x0001;
pub const DISC_MUTE: u16 = 0x0002;
pub const DISC_UN_MUTE: u16 = 0x0003;
pub const PROXIED_DEVICES: u16 = 0x0010;
pub const PROXIED_DEVICE_COUNT: u16 = 0x0011;
pub const COMMS_STATUS: u16 = 0x0015;

// Parameter ids: status collection.
pub const QUEUED_MESSAGE: u16 = 0x0020;
pub const STATUS_MESSAGES: u16 = 0x0030;
pub const STATUS_ID_DESCRIPTION: u16 = 0x0031;
pub const CLEAR_STATUS_ID: u16 = 0x0032;
pub const SUB_DEVICE_STATUS_REPORT_THRESHOLD: u16 = 0x0033;

// Parameter ids: RDM information.
pub const SUPPORTED_PARAMETERS: u16 = 0x0050;
pub const PARAMETER_DESCRIPTION: u16 = 0x0051;

// Parameter ids: product information.
pub const DEVICE_INFO: u16 = 0x0060;
pub const PRODUCT_DETAIL_ID_LIST: u16 = 0x0070;
pub const DEVICE_MODEL_DESCRIPTION: u16 = 0x0080;
pub const MANUFACTURER_LABEL: u16 = 0x0081;
pub const DEVICE_LABEL: u16 = 0x0082;
pub const FACTORY_DEFAULTS: u16 = 0x0090;
pub const LANGUAGE_CAPABILITIES: u16 = 0x00A0;
pub const LANGUAGE: u16 = 0x00B0;
pub const SOFTWARE_VERSION_LABEL: u16 = 0x00C0;
pub const BOOT_SOFTWARE_VERSION_ID: u16 = 0x00C1;
pub const BOOT_SOFTWARE_VERSION_LABEL: u16 = 0x00C2;

// Parameter ids: DMX512 setup.
pub const DMX_PERSONALITY: u16 = 0x00E0;
pub const DMX_PERSONALITY_DESCRIPTION: u16 = 0x00E1;
pub const DMX_START_ADDRESS: u16 = 0x00F0;
pub const SLOT_INFO: u16 = 0x0120;
pub const SLOT_DESCRIPTION: u16 = 0x0121;
pub const DEFAULT_SLOT_VALUE: u16 = 0x0122;
pub const DMX_BLOCK_ADDRESS: u16 = 0x0140;
pub const DMX_FAIL_MODE: u16 = 0x0141;
pub const DMX_STARTUP_MODE: u16 = 0x0142;

// Parameter ids: sensors.
pub const SENSOR_DEFINITION: u16 = 0x0200;
pub const SENSOR_VALUE: u16 = 0x0201;
pub const RECORD_SENSORS: u16 = 0x0202;

// Parameter ids: dimmer settings.
pub const DIMMER_INFO: u16 = 0x0340;
pub const MINIMUM_LEVEL: u16 = 0x0341;
pub const MAXIMUM_LEVEL: u16 = 0x0342;
pub const CURVE: u16 = 0x0343;
pub const CURVE_DESCRIPTION: u16 = 0x0344;
pub const OUTPUT_RESPONSE_TIME: u16 = 0x0345;
pub const OUTPUT_RESPONSE_TIME_DESCRIPTION: u16 = 0x0346;
pub const MODULATION_FREQUENCY: u16 = 0x0347;
pub const MODULATION_FREQUENCY_DESCRIPTION: u16 = 0x0348;

// Parameter ids: power and lamp settings.
pub const DEVICE_HOURS: u16 = 0x0400;
pub const LAMP_HOURS: u16 = 0x0401;
pub const LAMP_STRIKES: u16 = 0x0402;
pub const LAMP_STATE: u16 = 0x0403;
pub const LAMP_ON_MODE: u16 = 0x0404;
pub const DEVICE_POWER_CYCLES: u16 = 0x0405;
pub const BURN_IN: u16 = 0x0440;

// Parameter ids: display settings.
pub const DISPLAY_INVERT: u16 = 0x0500;
pub const DISPLAY_LEVEL: u16 = 0x0501;

// Parameter ids: configuration.
pub const PAN_INVERT: u16 = 0x0600;
pub const TILT_INVERT: u16 = 0x0601;
pub const PAN_TILT_SWAP: u16 = 0x0602;
pub const REAL_TIME_CLOCK: u16 = 0x0603;
pub const LOCK_PIN: u16 = 0x0640;
pub const LOCK_STATE: u16 = 0x0641;
pub const LOCK_STATE_DESCRIPTION: u16 = 0x0642;

// Parameter ids: control.
pub const IDENTIFY_DEVICE: u16 = 0x1000;
pub const RESET_DEVICE: u16 = 0x1001;
pub const POWER_STATE: u16 = 0x1010;
pub const PERFORM_SELFTEST: u16 = 0x1020;
pub const SELF_TEST_DESCRIPTION: u16 = 0x1021;
pub const CAPTURE_PRESET: u16 = 0x1030;
pub const PRESET_PLAYBACK: u16 = 0x1031;
pub const IDENTIFY_MODE: u16 = 0x1040;
pub const PRESET_INFO: u16 = 0x1041;
pub const PRESET_STATUS: u16 = 0x1042;
pub const PRESET_MERGEMODE: u16 = 0x1043;
pub const POWER_ON_SELF_TEST: u16 = 0x1044;

// Sensor types.
pub const SENS_TEMPERATURE: u8 = 0x00;
pub const SENS_VOLTAGE: u8 = 0x01;
pub const SENS_CURRENT: u8 = 0x02;
pub const SENS_FREQUENCY: u8 = 0x03;
pub const SENS_RESISTANCE: u8 = 0x04;
pub const SENS_POWER: u8 = 0x05;
pub const SENS_MASS: u8 = 0x06;
pub const SENS_LENGTH: u8 = 0x07;
pub const SENS_AREA: u8 = 0x08;
pub const SENS_VOLUME: u8 = 0x09;
pub const SENS_DENSITY: u8 = 0x0A;
pub const SENS_VELOCITY: u8 = 0x0B;
pub const SENS_ACCELERATION: u8 = 0x0C;
pub const SENS_FORCE: u8 = 0x0D;
pub const SENS_ENERGY: u8 = 0x0E;
pub const SENS_PRESSURE: u8 = 0x0F;
pub const SENS_TIME: u8 = 0x10;
pub const SENS_ANGLE: u8 = 0x11;
pub const SENS_POSITION_X: u8 = 0x12;
pub const SENS_POSITION_Y: u8 = 0x13;
pub const SENS_POSITION_Z: u8 = 0x14;
pub const SENS_ANGULAR_VELOCITY: u8 = 0x15;
pub const SENS_LUMINOUS_INTENSITY: u8 = 0x16;
pub const SENS_LUMINOUS_FLUX: u8 = 0x17;
pub const SENS_ILLUMINANCE: u8 = 0x18;
pub const SENS_CHROMINANCE_RED: u8 = 0x19;
pub const SENS_CHROMINANCE_GREEN: u8 = 0x1A;
pub const SENS_CHROMINANCE_BLUE: u8 = 0x1B;
pub const SENS_CONTACTS: u8 = 0x1C;
pub const SENS_MEMORY: u8 = 0x1D;
pub const SENS_ITEMS: u8 = 0x1E;
pub const SENS_HUMIDITY: u8 = 0x1F;
pub const SENS_COUNTER_16BIT: u8 = 0x20;
pub const SENS_OTHER: u8 = 0x7F;

// Sensor units.
pub const UNITS_NONE: u8 = 0x00;
pub const UNITS_CENTIGRADE: u8 = 0x01;
pub const UNITS_VOLTS_DC: u8 = 0x02;
pub const UNITS_VOLTS_AC_PEAK: u8 = 0x03;
pub const UNITS_VOLTS_AC_RMS: u8 = 0x04;
pub const UNITS_AMPERE_DC: u8 = 0x05;
pub const UNITS_AMPERE_AC_PEAK: u8 = 0x06;
pub const UNITS_AMPERE_AC_RMS: u8 = 0x07;
pub const UNITS_HERTZ: u8 = 0x08;
pub const UNITS_OHM: u8 = 0x09;
pub const UNITS_WATT: u8 = 0x0A;
pub const UNITS_KILOGRAM: u8 = 0x0B;
pub const UNITS_METERS: u8 = 0x0C;
pub const UNITS_METERS_SQUARED: u8 = 0x0D;
pub const UNITS_METERS_CUBED: u8 = 0x0E;
pub const UNITS_KILOGRAMMES_PER_METER_CUBED: u8 = 0x0F;
pub const UNITS_METERS_PER_SECOND: u8 = 0x10;
pub const UNITS_METERS_PER_SECOND_SQUARED: u8 = 0x11;
pub const UNITS_NEWTON: u8 = 0x12;
pub const UNITS_JOULE: u8 = 0x13;
pub const UNITS_PASCAL: u8 = 0x14;
pub const UNITS_SECOND: u8 = 0x15;
pub const UNITS_DEGREE: u8 = 0x16;
pub const UNITS_STERADIAN: u8 = 0x17;
pub const UNITS_CANDELA: u8 = 0x18;
pub const UNITS_LUMEN: u8 = 0x19;
pub const UNITS_LUX: u8 = 0x1A;
pub const UNITS_IRE: u8 = 0x1B;
pub const UNITS_BYTE: u8 = 0x1C;

// Sensor unit prefixes.
pub const PREFIX_NONE: u8 = 0x00;
pub const PREFIX_DECI: u8 = 0x01;
pub const PREFIX_CENTI: u8 = 0x02;
pub const PREFIX_MILLI: u8 = 0x03;
pub const PREFIX_MICRO: u8 = 0x04;
pub const PREFIX_NANO: u8 = 0x05;
pub const PREFIX_PICO: u8 = 0x06;
pub const PREFIX_FEMPTO: u8 = 0x07;
pub const PREFIX_ATTO: u8 = 0x08;
pub const PREFIX_ZEPTO: u8 = 0x09;
pub const PREFIX_YOCTO: u8 = 0x0A;
pub const PREFIX_DECA: u8 = 0x11;
pub const PREFIX_HECTO: u8 = 0x12;
pub const PREFIX_KILO: u8 = 0x13;
pub const PREFIX_MEGA: u8 = 0x14;
pub const PREFIX_GIGA: u8 = 0x15;
pub const PREFIX_TERRA: u8 = 0x16;
pub const PREFIX_PETA: u8 = 0x17;
pub const PREFIX_EXA: u8 = 0x18;
pub const PREFIX_ZETTA: u8 = 0x19;
pub const PREFIX_YOTTA: u8 = 0x1A;

} // verus!
