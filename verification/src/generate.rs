//! The command generator: per-directive translation rules, platform
//! guards, and the final assembly of the semicolon-joined command string.

use vstd::prelude::*;

use crate::arrange::{arrange_for_uboot, spec_arrange};
use crate::entries::{configs_view, entries_view, ConfigEntry, ConfigEntryV, ConfigV, DTOverlay,
    DTparam, GpuMem, GpuMemV};
use crate::errors::{UbootError, UbootErrorV};
use crate::sections::{sec_lookup, Sections, SectionsV};
use crate::text::{hex_lit, hex_lit_string, parse_u32_str, spec_parse_u32, str_eq};
use crate::RPiConfig;

verus! {

/// The views of a list of strings.
pub open spec fn strings_view(v: Seq<String>) -> Seq<Seq<char>> {
    v.map_values(|s: String| s@)
}

/// Prepends already-generated commands to the outcome of generating the
/// rest: an error swallows the prefix, since a failed run emits nothing.
pub open spec fn with_prefix(pre: Seq<Seq<char>>, r: Result<Seq<Seq<char>>, UbootErrorV>) -> Result<
    Seq<Seq<char>>,
    UbootErrorV,
> {
    match r {
        Ok(c) => Ok(pre + c),
        Err(e) => Err(e),
    }
}

/// The `dtparam` translation table: the command one `key=value` pair
/// becomes, or the error that rejects it.
pub open spec fn spec_param_command(key: Seq<char>, value: Seq<char>) -> Result<
    Seq<char>,
    UbootErrorV,
> {
    if key == "act_led_trigger"@ {
        if value == "default-on"@ {
            Ok("fdt set /leds/act linux,default-trigger default-on"@)
        } else {
            Err(UbootErrorV::UnsupportedParamValue { key, value })
        }
    } else if key == "audio"@ {
        if value == "on"@ {
            Ok("fdt set /soc/audio status okay"@)
        } else {
            Err(UbootErrorV::UnsupportedParamValue { key, value })
        }
    } else if key == "i2c_arm"@ {
        if value == "on"@ {
            Ok("fdt set i2c_arm status okay"@)
        } else {
            Err(UbootErrorV::UnsupportedParamValue { key, value })
        }
    } else if key == "i2s"@ {
        if value == "on"@ {
            Ok("fdt set i2s status okay"@)
        } else {
            Err(UbootErrorV::UnsupportedParamValue { key, value })
        }
    } else if key == "pwr_led_activelow"@ {
        if value == "off"@ {
            Ok("fdt set /leds/pwr gpios < ? ? 0x00 >"@)
        } else if value == "on"@ {
            Ok("fdt set /leds/pwr gpios < ? ? 0x01 >"@)
        } else {
            Err(UbootErrorV::UnsupportedParamValue { key, value })
        }
    } else if key == "pwr_led_trigger"@ {
        if value == "none"@ {
            Ok("fdt set /leds/pwr linux,default-trigger none"@)
        } else {
            Err(UbootErrorV::UnsupportedParamValue { key, value })
        }
    } else if key == "spi"@ {
        if value == "on"@ {
            Ok("fdt set spi0 status okay"@)
        } else {
            Err(UbootErrorV::UnsupportedParamValue { key, value })
        }
    } else if key == "watchdog"@ {
        if value == "on"@ {
            Ok("fdt set watchdog status okay"@)
        } else {
            Err(UbootErrorV::UnsupportedParamValue { key, value })
        }
    } else if key == "i2c_arm_baudrate"@ {
        match spec_parse_u32(value) {
            Some(b) => Ok("fdt set i2c clock-frequency < "@ + hex_lit(b as int) + " >"@),
            None => Err(UbootErrorV::InvalidBaudrate { value }),
        }
    } else {
        Err(UbootErrorV::UnsupportedParamKey { key })
    }
}

/// The commands a `dtparam` pair list from index `i` on becomes: the
/// commands of each pair in order, or the first error.
pub open spec fn spec_param_commands_from(params: Seq<ConfigV>, i: int) -> Result<
    Seq<Seq<char>>,
    UbootErrorV,
>
    decreases params.len() - i when 0 <= i <= params.len()
{
    if i >= params.len() {
        Ok(Seq::empty())
    } else {
        match spec_param_command(params[i].key, params[i].value) {
            Ok(c) => match spec_param_commands_from(params, i + 1) {
                Ok(rest) => Ok(seq![c] + rest),
                Err(e) => Err(e),
            },
            Err(e) => Err(e),
        }
    }
}

/// The commands a whole `dtparam` directive becomes.
pub open spec fn spec_param_commands(params: Seq<ConfigV>) -> Result<Seq<Seq<char>>, UbootErrorV> {
    spec_param_commands_from(params, 0)
}

/// Translates one `dtparam` pair through the fixed table.
fn param_command(key: &str, value: &str) -> (r: Result<String, UbootError>)
    ensures
        match r {
            Ok(c) => spec_param_command(key@, value@) == Ok::<Seq<char>, UbootErrorV>(c@),
            Err(e) => spec_param_command(key@, value@) == Err::<Seq<char>, UbootErrorV>(e@),
        },
{
    if str_eq(key, "act_led_trigger") {
        if str_eq(value, "default-on") {
            Ok("fdt set /leds/act linux,default-trigger default-on".to_owned())
        } else {
            Err(param_value_error(key, value))
        }
    } else if str_eq(key, "audio") {
        if str_eq(value, "on") {
            Ok("fdt set /soc/audio status okay".to_owned())
        } else {
            Err(param_value_error(key, value))
        }
    } else if str_eq(key, "i2c_arm") {
        if str_eq(value, "on") {
            Ok("fdt set i2c_arm status okay".to_owned())
        } else {
            Err(param_value_error(key, value))
        }
    } else if str_eq(key, "i2s") {
        if str_eq(value, "on") {
            Ok("fdt set i2s status okay".to_owned())
        } else {
            Err(param_value_error(key, value))
        }
    } else if str_eq(key, "pwr_led_activelow") {
        if str_eq(value, "off") {
            Ok("fdt set /leds/pwr gpios < ? ? 0x00 >".to_owned())
        } else if str_eq(value, "on") {
            Ok("fdt set /leds/pwr gpios < ? ? 0x01 >".to_owned())
        } else {
            Err(param_value_error(key, value))
        }
    } else if str_eq(key, "pwr_led_trigger") {
        if str_eq(value, "none") {
            Ok("fdt set /leds/pwr linux,default-trigger none".to_owned())
        } else {
            Err(param_value_error(key, value))
        }
    } else if str_eq(key, "spi") {
        if str_eq(value, "on") {
            Ok("fdt set spi0 status okay".to_owned())
        } else {
            Err(param_value_error(key, value))
        }
    } else if str_eq(key, "watchdog") {
        if str_eq(value, "on") {
            Ok("fdt set watchdog status okay".to_owned())
        } else {
            Err(param_value_error(key, value))
        }
    } else if str_eq(key, "i2c_arm_baudrate") {
        match parse_u32_str(value) {
            Some(b) => {
                let mut s = "fdt set i2c clock-frequency < ".to_owned();
                s.append(hex_lit_string(b as usize).as_str());
                s.append(" >");
                Ok(s)
            },
            None => Err(UbootError::InvalidBaudrate { value: value.to_owned() }),
        }
    } else {
        Err(UbootError::UnsupportedParamKey { key: key.to_owned() })
    }
}

fn param_value_error(key: &str, value: &str) -> (r: UbootError)
    ensures
        r@ == (UbootErrorV::UnsupportedParamValue { key: key@, value: value@ }),
{
    UbootError::UnsupportedParamValue { key: key.to_owned(), value: value.to_owned() }
}

impl DTparam {
    /// Translates the directive's pairs through the `dtparam` table, in
    /// order, stopping at the first rejected pair.
    pub fn generate_uboot_config(&self) -> (r: Result<Vec<String>, UbootError>)
        ensures
            match r {
                Ok(cmds) => spec_param_commands(self@.configs) == Ok::<
                    Seq<Seq<char>>,
                    UbootErrorV,
                >(strings_view(cmds@)),
                Err(e) => spec_param_commands(self@.configs) == Err::<
                    Seq<Seq<char>>,
                    UbootErrorV,
                >(e@),
            },
    {
        let ghost ps = configs_view(self.configs@);
        let mut commands: Vec<String> = Vec::new();
        assert(strings_view(commands@) + Seq::<Seq<char>>::empty() =~= strings_view(commands@));
        let mut i: usize = 0;
        while i < self.configs.len()
            invariant
                0 <= i <= self.configs@.len(),
                ps == configs_view(self.configs@),
                spec_param_commands(ps) == with_prefix(
                    strings_view(commands@),
                    spec_param_commands_from(ps, i as int),
                ),
            decreases self.configs@.len() - i,
        {
            assert(ps[i as int] == self.configs@[i as int]@);
            let c = &self.configs[i];
            match param_command(c.key.as_str(), c.value.as_str()) {
                Ok(cmd) => {
                    let ghost pre0 = strings_view(commands@);
                    let ghost cmdv = cmd@;
                    commands.push(cmd);
                    proof {
                        assert(strings_view(commands@) =~= pre0.push(cmdv));
                        match spec_param_commands_from(ps, i + 1) {
                            Ok(rest) => {
                                assert(pre0 + (seq![cmdv] + rest) =~= pre0.push(cmdv) + rest);
                            },
                            Err(_) => {},
                        }
                    }
                },
                Err(e) => {
                    return Err(e);
                },
            }
            i += 1;
        }
        assert(strings_view(commands@) + Seq::<Seq<char>>::empty() =~= strings_view(commands@));
        Ok(commands)
    }
}

/// The command that loads an overlay blob into the staging address.
pub open spec fn spec_overlay_load_command(name: Seq<char>) -> Seq<char> {
    "load ${devtype} ${devnum}:${devpart} ${fdt_ovaddr} ${fdtdir}/overlays/"@ + name + ".dtbo"@
}

/// The property-set commands of a parameterized `dwc2` overlay, from
/// index `i` on.
pub open spec fn spec_dwc2_commands_from(params: Seq<ConfigV>, i: int) -> Seq<Seq<char>>
    decreases params.len() - i when 0 <= i <= params.len()
{
    if i >= params.len() {
        Seq::empty()
    } else {
        seq!["fdt set usb "@ + params[i].key + " "@ + params[i].value] + spec_dwc2_commands_from(
            params,
            i + 1,
        )
    }
}

/// The commands a `dtoverlay` directive becomes: `i2smaster` is special
/// cased, every other overlay is loaded and applied, and only `dwc2` may
/// carry extra parameters.
pub open spec fn spec_overlay_commands(name: Seq<char>, params: Seq<ConfigV>) -> Result<
    Seq<Seq<char>>,
    UbootErrorV,
> {
    if name == "i2smaster"@ {
        Ok(seq!["fdt set i2s status okay"@])
    } else {
        let base = seq![spec_overlay_load_command(name), "fdt apply ${fdt_ovaddr}"@];
        if params.len() == 0 {
            Ok(base)
        } else if name == "dwc2"@ {
            Ok(base + spec_dwc2_commands_from(params, 0))
        } else {
            Err(UbootErrorV::UnsupportedOverlayParams { overlay: name })
        }
    }
}

impl DTOverlay {
    /// Translates the overlay directive into its load/apply command pair,
    /// the `i2smaster` special case, or the `dwc2` parameter commands.
    pub fn generate_uboot_config(&self) -> (r: Result<Vec<String>, UbootError>)
        ensures
            match r {
                Ok(cmds) => spec_overlay_commands(self@.overlay, self@.configs) == Ok::<
                    Seq<Seq<char>>,
                    UbootErrorV,
                >(strings_view(cmds@)),
                Err(e) => spec_overlay_commands(self@.overlay, self@.configs) == Err::<
                    Seq<Seq<char>>,
                    UbootErrorV,
                >(e@),
            },
    {
        let ghost ps = configs_view(self.configs@);
        let mut commands: Vec<String> = Vec::new();
        if str_eq(self.overlay.as_str(), "i2smaster") {
            commands.push("fdt set i2s status okay".to_owned());
            assert(strings_view(commands@) =~= seq!["fdt set i2s status okay"@]);
            return Ok(commands);
        }
        let mut load = "load ${devtype} ${devnum}:${devpart} ${fdt_ovaddr} ${fdtdir}/overlays/"
            .to_owned();
        load.append(self.overlay.as_str());
        load.append(".dtbo");
        commands.push(load);
        commands.push("fdt apply ${fdt_ovaddr}".to_owned());
        let ghost base = seq![spec_overlay_load_command(self@.overlay), "fdt apply ${fdt_ovaddr}"@];
        assert(strings_view(commands@) =~= base);
        if self.configs.len() == 0 {
            return Ok(commands);
        }
        if !str_eq(self.overlay.as_str(), "dwc2") {
            return Err(
                UbootError::UnsupportedOverlayParams { overlay: self.overlay.clone() },
            );
        }
        let mut i: usize = 0;
        while i < self.configs.len()
            invariant
                0 <= i <= self.configs@.len(),
                ps == configs_view(self.configs@),
                strings_view(commands@) + spec_dwc2_commands_from(ps, i as int) =~= base
                    + spec_dwc2_commands_from(ps, 0),
            decreases self.configs@.len() - i,
        {
            assert(ps[i as int] == self.configs@[i as int]@);
            let c = &self.configs[i];
            let mut cmd = "fdt set usb ".to_owned();
            cmd.append(c.key.as_str());
            cmd.append(" ");
            cmd.append(c.value.as_str());
            let ghost pre0 = strings_view(commands@);
            let ghost cmdv = cmd@;
            commands.push(cmd);
            proof {
                assert(strings_view(commands@) =~= pre0.push(cmdv));
                assert(pre0 + (seq![cmdv] + spec_dwc2_commands_from(ps, i + 1)) =~= pre0.push(cmdv)
                    + spec_dwc2_commands_from(ps, i + 1));
            }
            i += 1;
        }
        assert(strings_view(commands@) =~= strings_view(commands@) + spec_dwc2_commands_from(
            ps,
            ps.len() as int,
        ));
        Ok(commands)
    }
}

/// A model that takes the 4-series memory templates.
pub open spec fn is_mem4_model(m: Seq<char>) -> bool {
    m == "4 Model B"@ || m == "400"@ || m == "Compute Module 4"@
}

/// A model that takes the 3-series memory templates.
pub open spec fn is_mem3_model(m: Seq<char>) -> bool {
    m == "3 Model B"@ || m == "3 Model B+"@ || m == "3 Model A+"@ || m == "Compute Module 3"@ || m
        == "Compute Module 3+"@
}

/// The command that reserves the GPU share of memory.
pub open spec fn spec_memreserve_command(cpu: int, gpu: int) -> Seq<char> {
    "fdt set / memreserve < "@ + hex_lit(cpu) + " "@ + hex_lit(gpu) + " >"@
}

/// The 4-series memory register command, with its fixed base-address split.
pub open spec fn spec_mem4_reg_command(cpu: int) -> Seq<char> {
    "fdt set /memory@0 reg < 0x00 0x00 "@ + hex_lit(cpu) + " 0x00 0x40000000 0xbc000000 >"@
}

/// The 3-series memory register command.
pub open spec fn spec_mem3_reg_command(cpu: int) -> Seq<char> {
    "fdt set /memory@0 reg < 0x00 "@ + hex_lit(cpu) + " >"@
}

/// The commands a memory-split entry becomes.  Sizes in MiB are converted
/// to bytes; the directive needs a declared total size and an assigned
/// model, and the GPU share may not exceed the total.
pub open spec fn spec_gpumem_commands(g: GpuMemV) -> Result<Seq<Seq<char>>, UbootErrorV> {
    match g.total_ramsize {
        None => Err(UbootErrorV::MissingTotalRamsize),
        Some(t) => {
            if t * 0x100000 > usize::MAX {
                Err(UbootErrorV::SizeOverflow)
            } else if g.gpu_ramsize * 0x100000 > usize::MAX {
                Err(UbootErrorV::SizeOverflow)
            } else {
                let total = t * 0x100000;
                let gpu = g.gpu_ramsize * 0x100000;
                if gpu > total {
                    Err(UbootErrorV::GpuExceedsTotal)
                } else {
                    let cpu = total - gpu;
                    match g.model {
                        None => Err(UbootErrorV::MissingModel),
                        Some(m) => {
                            if is_mem4_model(m) {
                                Ok(
                                    seq![
                                        spec_memreserve_command(cpu, gpu),
                                        spec_mem4_reg_command(cpu),
                                    ],
                                )
                            } else if is_mem3_model(m) {
                                Ok(
                                    seq![
                                        spec_memreserve_command(cpu, gpu),
                                        spec_mem3_reg_command(cpu),
                                    ],
                                )
                            } else {
                                Err(UbootErrorV::UnsupportedModel { model: m })
                            }
                        },
                    }
                }
            }
        },
    }
}

impl GpuMem {
    /// Translates the memory split into the reserve and register commands
    /// of its model's template group.
    pub fn generate_uboot_config(&self) -> (r: Result<Vec<String>, UbootError>)
        ensures
            match r {
                Ok(cmds) => spec_gpumem_commands(self@) == Ok::<Seq<Seq<char>>, UbootErrorV>(
                    strings_view(cmds@),
                ),
                Err(e) => spec_gpumem_commands(self@) == Err::<Seq<Seq<char>>, UbootErrorV>(e@),
            },
    {
        let t = match self.total_ramsize {
            Some(t) => t,
            None => {
                return Err(UbootError::MissingTotalRamsize);
            },
        };
        let total = match t.checked_mul(0x100000) {
            Some(x) => x,
            None => {
                return Err(UbootError::SizeOverflow);
            },
        };
        let gpu = match self.gpu_ramsize.checked_mul(0x100000) {
            Some(x) => x,
            None => {
                return Err(UbootError::SizeOverflow);
            },
        };
        let cpu = match total.checked_sub(gpu) {
            Some(x) => x,
            None => {
                return Err(UbootError::GpuExceedsTotal);
            },
        };
        let model = match &self.model {
            Some(m) => m,
            None => {
                return Err(UbootError::MissingModel);
            },
        };
        let mut reserve = "fdt set / memreserve < ".to_owned();
        reserve.append(hex_lit_string(cpu).as_str());
        reserve.append(" ");
        reserve.append(hex_lit_string(gpu).as_str());
        reserve.append(" >");
        let is4 = str_eq(model.as_str(), "4 Model B") || str_eq(model.as_str(), "400") || str_eq(
            model.as_str(),
            "Compute Module 4",
        );
        if is4 {
            let mut reg = "fdt set /memory@0 reg < 0x00 0x00 ".to_owned();
            reg.append(hex_lit_string(cpu).as_str());
            reg.append(" 0x00 0x40000000 0xbc000000 >");
            let mut commands: Vec<String> = Vec::new();
            let ghost rv = reserve@;
            let ghost gv = reg@;
            commands.push(reserve);
            commands.push(reg);
            assert(strings_view(commands@) =~= seq![rv, gv]);
            return Ok(commands);
        }
        let is3 = str_eq(model.as_str(), "3 Model B") || str_eq(model.as_str(), "3 Model B+")
            || str_eq(model.as_str(), "3 Model A+") || str_eq(model.as_str(), "Compute Module 3")
            || str_eq(model.as_str(), "Compute Module 3+");
        if is3 {
            let mut reg = "fdt set /memory@0 reg < 0x00 ".to_owned();
            reg.append(hex_lit_string(cpu).as_str());
            reg.append(" >");
            let mut commands: Vec<String> = Vec::new();
            let ghost rv = reserve@;
            let ghost gv = reg@;
            commands.push(reserve);
            commands.push(reg);
            assert(strings_view(commands@) =~= seq![rv, gv]);
            return Ok(commands);
        }
        Err(UbootError::UnsupportedModel { model: model.clone() })
    }
}

/// The commands one entry becomes at generation time.  Comments, generic
/// commands and filter markers generate nothing.
pub open spec fn spec_entry_commands(e: ConfigEntryV) -> Result<Seq<Seq<char>>, UbootErrorV> {
    match e {
        ConfigEntryV::DTOverlay(o) => spec_overlay_commands(o.overlay, o.configs),
        ConfigEntryV::DTparam(p) => spec_param_commands(p.configs),
        ConfigEntryV::GpuMem(g) => spec_gpumem_commands(g),
        _ => Ok(Seq::empty()),
    }
}

/// The commands of a bucket's entries from `i` on, concatenated in entry
/// order, or the first error.
pub open spec fn spec_bucket_commands_from(es: Seq<ConfigEntryV>, i: int) -> Result<
    Seq<Seq<char>>,
    UbootErrorV,
>
    decreases es.len() - i when 0 <= i <= es.len()
{
    if i >= es.len() {
        Ok(Seq::empty())
    } else {
        match spec_entry_commands(es[i]) {
            Ok(c) => match spec_bucket_commands_from(es, i + 1) {
                Ok(rest) => Ok(c + rest),
                Err(e) => Err(e),
            },
            Err(e) => Err(e),
        }
    }
}

/// The commands of a whole bucket.
pub open spec fn spec_bucket_commands(es: Seq<ConfigEntryV>) -> Result<
    Seq<Seq<char>>,
    UbootErrorV,
> {
    spec_bucket_commands_from(es, 0)
}

/// Translates every entry of one bucket, in order.
fn bucket_commands(es: &Vec<ConfigEntry>) -> (r: Result<Vec<String>, UbootError>)
    ensures
        match r {
            Ok(cmds) => spec_bucket_commands(entries_view(es@)) == Ok::<
                Seq<Seq<char>>,
                UbootErrorV,
            >(strings_view(cmds@)),
            Err(e) => spec_bucket_commands(entries_view(es@)) == Err::<
                Seq<Seq<char>>,
                UbootErrorV,
            >(e@),
        },
{
    let ghost esv = entries_view(es@);
    let mut commands: Vec<String> = Vec::new();
    let mut i: usize = 0;
    while i < es.len()
        invariant
            0 <= i <= es@.len(),
            esv == entries_view(es@),
            spec_bucket_commands(esv) == with_prefix(
                strings_view(commands@),
                spec_bucket_commands_from(esv, i as int),
            ),
        decreases es@.len() - i,
    {
        assert(esv[i as int] == es@[i as int]@);
        let step = match &es[i] {
            ConfigEntry::DTOverlay(x) => Some(x.generate_uboot_config()),
            ConfigEntry::DTparam(x) => Some(x.generate_uboot_config()),
            ConfigEntry::GpuMem(x) => Some(x.generate_uboot_config()),
            _ => None,
        };
        match step {
            None => {
                proof {
                    assert(spec_entry_commands(esv[i as int]) == Ok::<
                        Seq<Seq<char>>,
                        UbootErrorV,
                    >(Seq::empty()));
                    match spec_bucket_commands_from(esv, i + 1) {
                        Ok(rest) => {
                            assert(Seq::<Seq<char>>::empty() + rest =~= rest);
                        },
                        Err(_) => {},
                    }
                }
            },
            Some(sub) => {
                match sub {
                    Ok(mut tmp) => {
                        let ghost pre0 = strings_view(commands@);
                        let ghost tmpv = strings_view(tmp@);
                        commands.append(&mut tmp);
                        proof {
                            assert(strings_view(commands@) =~= pre0 + tmpv);
                            match spec_bucket_commands_from(esv, i + 1) {
                                Ok(rest) => {
                                    assert(pre0 + (tmpv + rest) =~= (pre0 + tmpv) + rest);
                                },
                                Err(_) => {},
                            }
                        }
                    },
                    Err(e) => {
                        return Err(e);
                    },
                }
            },
        }
        i += 1;
    }
    assert(strings_view(commands@) + Seq::<Seq<char>>::empty() =~= strings_view(commands@));
    Ok(commands)
}

/// The fixed order in which model buckets are emitted: the catch-all
/// first, then the models from oldest to newest.
pub open spec fn spec_priority() -> Seq<Seq<char>> {
    seq![
        "all"@,
        "Zero"@,
        "Zero W"@,
        "3 Model A+"@,
        "3 Model B"@,
        "3 Model B+"@,
        "Compute Module 3"@,
        "Compute Module 3+"@,
        "4 Model B"@,
        "400"@,
        "Compute Module 4"@,
    ]
}

/// A bucket's commands wrapped for its platform: nothing for an empty
/// command list, the bare commands for the catch-all, and a runtime
/// board-name test around every other platform's commands.
pub open spec fn spec_guarded(platform: Seq<char>, cmds: Seq<Seq<char>>) -> Seq<Seq<char>> {
    if cmds.len() == 0 {
        Seq::empty()
    } else if platform == "all"@ {
        cmds
    } else {
        seq!["if test \"${board_name}\" = \""@ + platform + "\""@, "then"@] + cmds + seq!["fi"@]
    }
}

/// The guarded command blocks of the mapping's buckets, in priority
/// order from index `i` on, or the first error.
pub open spec fn spec_blocks_from(m: SectionsV, i: int) -> Result<Seq<Seq<char>>, UbootErrorV>
    decreases spec_priority().len() - i when 0 <= i <= spec_priority().len()
{
    if i >= spec_priority().len() {
        Ok(Seq::empty())
    } else {
        let p = spec_priority()[i];
        let here = match sec_lookup(m, p) {
            None => Ok(Seq::empty()),
            Some(es) => match spec_bucket_commands(es) {
                Ok(c) => Ok(spec_guarded(p, c)),
                Err(e) => Err(e),
            },
        };
        match here {
            Ok(b) => match spec_blocks_from(m, i + 1) {
                Ok(rest) => Ok(b + rest),
                Err(e) => Err(e),
            },
            Err(e) => Err(e),
        }
    }
}

fn priority_name(i: usize) -> (r: &'static str)
    requires
        i < 11,
    ensures
        r@ == spec_priority()[i as int],
{
    match i {
        0 => "all",
        1 => "Zero",
        2 => "Zero W",
        3 => "3 Model A+",
        4 => "3 Model B",
        5 => "3 Model B+",
        6 => "Compute Module 3",
        7 => "Compute Module 3+",
        8 => "4 Model B",
        9 => "400",
        _ => "Compute Module 4",
    }
}

/// Emits the guarded blocks of every bucket, in priority order.
fn platform_blocks(configs: &Sections) -> (r: Result<Vec<String>, UbootError>)
    ensures
        match r {
            Ok(cmds) => spec_blocks_from(configs@, 0) == Ok::<Seq<Seq<char>>, UbootErrorV>(
                strings_view(cmds@),
            ),
            Err(e) => spec_blocks_from(configs@, 0) == Err::<Seq<Seq<char>>, UbootErrorV>(e@),
        },
{
    let ghost m = configs@;
    let mut blocks: Vec<String> = Vec::new();
    let mut i: usize = 0;
    while i < 11
        invariant
            0 <= i <= 11,
            m == configs@,
            spec_blocks_from(m, 0) == with_prefix(
                strings_view(blocks@),
                spec_blocks_from(m, i as int),
            ),
        decreases 11 - i,
    {
        let pname = priority_name(i);
        let ghost p = spec_priority()[i as int];
        let bucket = configs.get(pname);
        match bucket {
            None => {
                proof {
                    match spec_blocks_from(m, i + 1) {
                        Ok(rest) => {
                            assert(Seq::<Seq<char>>::empty() + rest =~= rest);
                        },
                        Err(_) => {},
                    }
                }
            },
            Some(es) => {
                let tmp = match bucket_commands(es) {
                    Ok(t) => t,
                    Err(e) => {
                        return Err(e);
                    },
                };
                let ghost tmpv = strings_view(tmp@);
                let ghost pre0 = strings_view(blocks@);
                let ghost blockv = spec_guarded(p, tmpv);
                if tmp.len() == 0 {
                    proof {
                        match spec_blocks_from(m, i + 1) {
                            Ok(rest) => {
                                assert(Seq::<Seq<char>>::empty() + rest =~= rest);
                            },
                            Err(_) => {},
                        }
                    }
                } else if str_eq(pname, "all") {
                    let mut tmp2 = tmp;
                    blocks.append(&mut tmp2);
                    proof {
                        assert(strings_view(blocks@) =~= pre0 + blockv);
                        match spec_blocks_from(m, i + 1) {
                            Ok(rest) => {
                                assert(pre0 + (blockv + rest) =~= (pre0 + blockv) + rest);
                            },
                            Err(_) => {},
                        }
                    }
                } else {
                    let mut guard = "if test \"${board_name}\" = \"".to_owned();
                    guard.append(pname);
                    guard.append("\"");
                    blocks.push(guard);
                    blocks.push("then".to_owned());
                    let mut tmp2 = tmp;
                    blocks.append(&mut tmp2);
                    blocks.push("fi".to_owned());
                    proof {
                        assert(strings_view(blocks@) =~= pre0 + blockv);
                        match spec_blocks_from(m, i + 1) {
                            Ok(rest) => {
                                assert(pre0 + (blockv + rest) =~= (pre0 + blockv) + rest);
                            },
                            Err(_) => {},
                        }
                    }
                }
            },
        }
        i += 1;
    }
    assert(strings_view(blocks@) + Seq::<Seq<char>>::empty() =~= strings_view(blocks@));
    Ok(blocks)
}

/// The fixed platform-independent lines that precede every output: they
/// set up a device-tree working address and resize the tree.
pub open spec fn spec_preamble() -> Seq<Seq<char>> {
    seq!["setexpr fdt_ovaddr ${fdt_addr} + 0x40000"@, "fdt addr ${fdt_addr}"@, "fdt resize 0x2000"@]
}

/// The fixed lines that follow every output: they record the hardware
/// revision in a device-tree node.
pub open spec fn spec_postamble() -> Seq<Seq<char>> {
    seq!["fdt mknode / system"@, "fdt set /system linux,revision < ${board_revision} >"@]
}

/// The first `i` commands joined with `;` separators.
pub open spec fn join_semi_upto(cmds: Seq<Seq<char>>, i: int) -> Seq<char>
    decreases i when 0 <= i <= cmds.len()
{
    if i <= 0 {
        Seq::empty()
    } else if i == 1 {
        cmds[0]
    } else {
        join_semi_upto(cmds, i - 1) + ";"@ + cmds[i - 1]
    }
}

/// All commands joined with `;` separators, no trailing separator.
pub open spec fn join_semi(cmds: Seq<Seq<char>>) -> Seq<char> {
    join_semi_upto(cmds, cmds.len() as int)
}

/// The whole translation of an arranged mapping: the preamble, the
/// guarded per-model blocks in priority order, and the postamble, joined
/// with `;` and prefixed with the output variable name.
pub open spec fn spec_generate(m: SectionsV, name: Seq<char>) -> Result<Seq<char>, UbootErrorV> {
    match spec_blocks_from(m, 0) {
        Ok(blocks) => Ok(
            name + "="@ + join_semi(spec_preamble() + blocks + spec_postamble()),
        ),
        Err(e) => Err(e),
    }
}

/// Joins `cmds` with `;` after the `name=` prefix.
fn join_commands(name: &str, cmds: &Vec<String>) -> (r: String)
    ensures
        r@ == name@ + "="@ + join_semi(strings_view(cmds@)),
{
    let ghost cv = strings_view(cmds@);
    let mut out = name.to_owned();
    out.append("=");
    assert(out@ =~= name@ + "="@ + join_semi_upto(cv, 0));
    let mut i: usize = 0;
    while i < cmds.len()
        invariant
            0 <= i <= cmds@.len(),
            cv == strings_view(cmds@),
            out@ == name@ + "="@ + join_semi_upto(cv, i as int),
        decreases cmds@.len() - i,
    {
        assert(cv[i as int] == cmds@[i as int]@);
        if i > 0 {
            out.append(";");
        }
        out.append(cmds[i].as_str());
        proof {
            if i == 0 {
                assert(name@ + "="@ + Seq::<char>::empty() + cv[0] =~= name@ + "="@ + cv[0]);
                assert(out@ =~= name@ + "="@ + join_semi_upto(cv, 1));
            } else {
                assert(out@ =~= name@ + "="@ + (join_semi_upto(cv, i as int) + ";"@ + cv[
                    i as int
                ]));
            }
        }
        i += 1;
    }
    out
}

impl RPiConfig {
    /// Translates the parsed configuration into one U-Boot environment
    /// assignment named `envval_name`, or reports that there is nothing
    /// to translate, or fails on the first untranslatable directive.
    pub fn convert_to_uboot_config(&self, envval_name: &str) -> (r: Result<
        Option<String>,
        UbootError,
    >)
        ensures
            match r {
                Ok(None) => self.configs@.len() == 0,
                Ok(Some(out)) => self.configs@.len() > 0 && spec_generate(
                    spec_arrange(self.configs@),
                    envval_name@,
                ) == Ok::<Seq<char>, UbootErrorV>(out@),
                Err(e) => self.configs@.len() > 0 && spec_generate(
                    spec_arrange(self.configs@),
                    envval_name@,
                ) == Err::<Seq<char>, UbootErrorV>(e@),
            },
    {
        if self.configs.len() == 0 {
            return Ok(None);
        }
        let arranged = arrange_for_uboot(&self.configs);
        let blocks = match platform_blocks(&arranged) {
            Ok(b) => b,
            Err(e) => {
                return Err(e);
            },
        };
        let ghost blocksv = strings_view(blocks@);
        let mut commands: Vec<String> = Vec::new();
        commands.push("setexpr fdt_ovaddr ${fdt_addr} + 0x40000".to_owned());
        commands.push("fdt addr ${fdt_addr}".to_owned());
        commands.push("fdt resize 0x2000".to_owned());
        let mut rest = blocks;
        commands.append(&mut rest);
        commands.push("fdt mknode / system".to_owned());
        commands.push("fdt set /system linux,revision < ${board_revision} >".to_owned());
        assert(strings_view(commands@) =~= spec_preamble() + blocksv + spec_postamble());
        let out = join_commands(envval_name, &commands);
        Ok(Some(out))
    }
}

/// Generation is deterministic: two runs over the same fine-grained
/// mapping and the same output variable name give the same outcome,
/// because the output is a function of nothing else.
pub proof fn lemma_generation_deterministic(
    m: SectionsV,
    name: Seq<char>,
    r1: Result<Seq<char>, UbootErrorV>,
    r2: Result<Seq<char>, UbootErrorV>,
)
    requires
        r1 == spec_generate(m, name),
        r2 == spec_generate(m, name),
    ensures
        r1 == r2,
{
}

} // verus!
