<?xml version="1.0" encoding="UTF-8"?>
<protocol name="wlr_gamma_control_unstable_v1">
  <interface name="zwlr_gamma_control_manager_v1" version="1">
    <description summary="manager to create per-output gamma controls"/>

    <request name="get_gamma_control">
      <description summary="get a gamma control for an output"/>
      <arg name="id" type="new_id" interface="zwlr_gamma_control_v1"/>
      <arg name="output" type="object" interface="wl_output"/>
    </request>

    <request name="destroy" type="destructor">
      <description summary="destroy the manager"/>
    </request>
  </interface>

  <interface name="zwlr_gamma_control_v1" version="1">
    <description summary="adjust the gamma tables of an output"/>

    <event name="gamma_size">
      <description summary="size of the gamma ramps"/>
      <arg name="size" type="uint"/>
    </event>

    <request name="set_gamma">
      <description summary="set the gamma table from a file descriptor"/>
      <arg name="fd" type="fd"/>
    </request>

    <event name="failed">
      <description summary="the object is no longer valid"/>
    </event>

    <request name="destroy" type="destructor">
      <description summary="destroy this control"/>
    </request>

    <enum name="error">
      <entry name="invalid_gamma" value="1" summary="invalid gamma tables"/>
    </enum>
  </interface>
</protocol>
